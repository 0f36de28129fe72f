//! Item identity keys.
//!
//! A rendered element is identified by the string key `item-<id>`, where
//! `<id>` is the canonical decimal rendering of the item's numeric id.
//! [`key_of`] derives the key from an id and [`id_of`] inverts it, rejecting
//! anything that does not match the derivation pattern exactly.

use vstd::prelude::*;

verus! {

use vstd::string::StringExecFns;

/// The character for one decimal digit value.
pub open spec fn digit_char(d: int) -> char {
    if d == 0 {
        '0'
    } else if d == 1 {
        '1'
    } else if d == 2 {
        '2'
    } else if d == 3 {
        '3'
    } else if d == 4 {
        '4'
    } else if d == 5 {
        '5'
    } else if d == 6 {
        '6'
    } else if d == 7 {
        '7'
    } else if d == 8 {
        '8'
    } else {
        '9'
    }
}

/// Whether `c` is a decimal digit character.
pub open spec fn is_digit(c: char) -> bool {
    ||| c == '0'
    ||| c == '1'
    ||| c == '2'
    ||| c == '3'
    ||| c == '4'
    ||| c == '5'
    ||| c == '6'
    ||| c == '7'
    ||| c == '8'
    ||| c == '9'
}

/// The value of a digit character.
pub open spec fn digit_val(c: char) -> int {
    if c == '0' {
        0
    } else if c == '1' {
        1
    } else if c == '2' {
        2
    } else if c == '3' {
        3
    } else if c == '4' {
        4
    } else if c == '5' {
        5
    } else if c == '6' {
        6
    } else if c == '7' {
        7
    } else if c == '8' {
        8
    } else {
        9
    }
}

/// The decimal digits of `n`, most significant first, with no leading zeros.
pub open spec fn dec_digits(n: nat) -> Seq<char>
    decreases n,
{
    if n < 10 {
        seq![digit_char(n as int)]
    } else {
        dec_digits(n / 10) + seq![digit_char((n % 10) as int)]
    }
}

/// The canonical decimal rendering of `i`, with a leading `-` for negatives.
pub open spec fn int_chars(i: int) -> Seq<char> {
    if i < 0 {
        seq!['-'] + dec_digits((-i) as nat)
    } else {
        dec_digits(i as nat)
    }
}

/// The fixed prefix every identity key starts with.
pub open spec fn key_prefix() -> Seq<char> {
    seq!['i', 't', 'e', 'm', '-']
}

/// The canonical identity key of the item with id `id`.
pub open spec fn key_chars(id: int) -> Seq<char> {
    key_prefix() + int_chars(id)
}

/// Every character of `s` is a decimal digit.
pub open spec fn all_digits(s: Seq<char>) -> bool {
    forall|i: int| 0 <= i < s.len() ==> is_digit(#[trigger] s[i])
}

/// A nonempty digit run with no leading zero (except the single digit `0`).
pub open spec fn canonical_digits(s: Seq<char>) -> bool {
    &&& all_digits(s)
    &&& s.len() >= 1
    &&& (s.len() > 1 ==> s[0] != '0')
}

/// The numeric value of a digit run.
pub open spec fn digits_val(s: Seq<char>) -> int
    decreases s.len(),
{
    if s.len() == 0 {
        0
    } else {
        digits_val(s.drop_last()) * 10 + digit_val(s.last())
    }
}

/// Whether `s` has the exact shape of an identity key: the prefix followed
/// by a canonical decimal integer (no leading zeros, no `-0`).
pub open spec fn is_key(s: Seq<char>) -> bool {
    &&& s.len() > 5
    &&& s.take(5) == key_prefix()
    &&& {
        let body = s.skip(5);
        if body[0] == '-' {
            &&& body.len() > 1
            &&& canonical_digits(body.skip(1))
            &&& digits_val(body.skip(1)) > 0
        } else {
            canonical_digits(body)
        }
    }
}

/// The id a well-shaped key decodes to.
pub open spec fn key_val(s: Seq<char>) -> int {
    let body = s.skip(5);
    if body[0] == '-' {
        -digits_val(body.skip(1))
    } else {
        digits_val(body)
    }
}

/// `10^k`, used to bound the value of a digit run by its length.
pub open spec fn pow10(k: nat) -> int
    decreases k,
{
    if k == 0 {
        1
    } else {
        10 * pow10((k - 1) as nat)
    }
}

proof fn lemma_pow10_pos(k: nat)
    ensures
        pow10(k) >= 1,
    decreases k,
{
    if k > 0 {
        lemma_pow10_pos((k - 1) as nat);
    }
}

proof fn lemma_pow10_mono(a: nat, b: nat)
    requires
        a <= b,
    ensures
        pow10(a) <= pow10(b),
    decreases b,
{
    if a < b {
        lemma_pow10_mono(a, (b - 1) as nat);
        lemma_pow10_pos((b - 1) as nat);
    }
}

proof fn lemma_digits_val_push(s: Seq<char>, c: char)
    ensures
        digits_val(s.push(c)) == digits_val(s) * 10 + digit_val(c),
{
    assert(s.push(c).drop_last() =~= s);
    assert(s.push(c).last() == c);
}

proof fn lemma_digits_val_bounds(s: Seq<char>)
    ensures
        0 <= digits_val(s) < pow10(s.len()),
    decreases s.len(),
{
    if s.len() == 0 {
    } else {
        lemma_digits_val_bounds(s.drop_last());
    }
}

proof fn lemma_digits_lower(s: Seq<char>)
    requires
        all_digits(s),
        s.len() >= 1,
        s[0] != '0',
    ensures
        digits_val(s) >= pow10((s.len() - 1) as nat),
    decreases s.len(),
{
    if s.len() == 1 {
        assert(is_digit(s[0]));
        assert(s.drop_last() =~= Seq::<char>::empty());
        assert(digits_val(Seq::<char>::empty()) == 0);
        assert(s.last() == s[0]);
    } else {
        let front = s.drop_last();
        assert(front[0] == s[0]);
        assert(all_digits(front));
        lemma_digits_lower(front);
        assert(digit_val(s.last()) >= 0);
    }
}

proof fn lemma_dec_digits_canonical(n: nat)
    ensures
        all_digits(dec_digits(n)),
        dec_digits(n).len() >= 1,
        digits_val(dec_digits(n)) == n,
        n >= 1 ==> dec_digits(n)[0] != '0',
        n < 10 ==> dec_digits(n).len() == 1,
        n >= 10 ==> dec_digits(n).len() >= 2,
        canonical_digits(dec_digits(n)),
    decreases n,
{
    if n < 10 {
        let s = dec_digits(n);
        assert(s =~= seq![digit_char(n as int)]);
        assert(is_digit(digit_char(n as int)));
        assert(s.drop_last() =~= Seq::<char>::empty());
        assert(digits_val(Seq::<char>::empty()) == 0);
        assert(s.last() == digit_char(n as int));
        assert(digits_val(s) == digit_val(digit_char(n as int)));
    } else {
        lemma_dec_digits_canonical(n / 10);
        let front = dec_digits(n / 10);
        let s = dec_digits(n);
        assert(s == front + seq![digit_char((n % 10) as int)]);
        assert(s =~= front.push(digit_char((n % 10) as int)));
        lemma_digits_val_push(front, digit_char((n % 10) as int));
        assert(digit_val(digit_char((n % 10) as int)) == n % 10);
        assert(digits_val(s) == (n / 10) * 10 + n % 10);
        assert((n / 10) * 10 + n % 10 == n) by (nonlinear_arith);
        assert(s[0] == front[0]);
        assert(n / 10 >= 1);
        assert forall|i: int| 0 <= i < s.len() implies is_digit(#[trigger] s[i]) by {
            if i < front.len() {
                assert(s[i] == front[i]);
            } else {
                assert(s[i] == digit_char((n % 10) as int));
            }
        }
    }
}

proof fn lemma_canonical_digits_unique(s: Seq<char>)
    requires
        canonical_digits(s),
    ensures
        digits_val(s) >= 0,
        dec_digits(digits_val(s) as nat) == s,
    decreases s.len(),
{
    lemma_digits_val_bounds(s);
    if s.len() == 1 {
        let c = s[0];
        assert(is_digit(c));
        assert(digit_char(digit_val(c)) == c);
        assert(s.drop_last() =~= Seq::<char>::empty());
        assert(digits_val(Seq::<char>::empty()) == 0);
        assert(s.last() == c);
        assert(digits_val(s) == digit_val(c));
        assert(dec_digits(digits_val(s) as nat) =~= s);
    } else {
        let front = s.drop_last();
        let c = s.last();
        assert(front[0] == s[0]);
        assert(all_digits(front));
        assert(is_digit(c)) by {
            assert(is_digit(s[s.len() - 1]));
        }
        lemma_canonical_digits_unique(front);
        lemma_digits_lower(front);
        lemma_pow10_pos((front.len() - 1) as nat);
        let vf = digits_val(front);
        let d = digit_val(c);
        let v = digits_val(s);
        assert(v == vf * 10 + d);
        assert(vf >= 1);
        assert(0 <= d <= 9);
        assert(v >= 10) by (nonlinear_arith)
            requires
                v == vf * 10 + d,
                vf >= 1,
                d >= 0,
        ;
        assert(v / 10 == vf && v % 10 == d) by (nonlinear_arith)
            requires
                v == vf * 10 + d,
                0 <= d <= 9,
                vf >= 0,
        ;
        assert(dec_digits(v as nat) == dec_digits((v as nat) / 10) + seq![
            digit_char(((v as nat) % 10) as int),
        ]);
        assert((v as nat) / 10 == vf as nat);
        assert(digit_char(d) == c);
        assert(dec_digits(v as nat) =~= s);
    }
}

/// Every canonical key has the key shape and decodes to the id it was
/// derived from: deriving a key never produces a malformed or ambiguous one.
pub proof fn lemma_key_chars_is_key(id: int)
    ensures
        is_key(key_chars(id)),
        key_val(key_chars(id)) == id,
{
    let s = key_chars(id);
    assert(s.take(5) =~= key_prefix());
    if id < 0 {
        let mag = (-id) as nat;
        lemma_dec_digits_canonical(mag);
        assert(s.skip(5) =~= seq!['-'] + dec_digits(mag));
        assert(s.skip(5).skip(1) =~= dec_digits(mag));
        assert(s.skip(5)[0] == '-');
    } else {
        let mag = id as nat;
        lemma_dec_digits_canonical(mag);
        assert(s.skip(5) =~= dec_digits(mag));
        assert(is_digit(s.skip(5)[0]));
        assert(s.skip(5)[0] != '-');
    }
}

/// A string of the key shape is the canonical key of the id it decodes to:
/// keys are unambiguous.
pub proof fn lemma_is_key_unique(s: Seq<char>)
    requires
        is_key(s),
    ensures
        s == key_chars(key_val(s)),
{
    let body = s.skip(5);
    assert(s =~= s.take(5) + body);
    if body[0] == '-' {
        let digits = body.skip(1);
        lemma_canonical_digits_unique(digits);
        let v = digits_val(digits);
        assert(key_val(s) == -v);
        assert(int_chars(-v) == seq!['-'] + dec_digits(v as nat));
        assert(body =~= seq!['-'] + digits);
        assert(key_chars(-v) =~= s);
    } else {
        lemma_canonical_digits_unique(body);
        let v = digits_val(body);
        assert(key_val(s) == v);
        assert(int_chars(v) == dec_digits(v as nat));
        assert(key_chars(v) =~= s);
    }
}

/// Distinct ids always derive distinct keys.
pub proof fn lemma_key_chars_injective(a: int, b: int)
    requires
        key_chars(a) == key_chars(b),
    ensures
        a == b,
{
    lemma_key_chars_is_key(a);
    lemma_key_chars_is_key(b);
}

proof fn lemma_key_digits(s: Seq<char>, id: int)
    requires
        s == key_chars(id),
    ensures
        s.len() > 5,
        s.take(5) == key_prefix(),
        id >= 0 ==> s[5] != '-' && s.skip(5) == dec_digits(id as nat),
        id < 0 ==> s[5] == '-' && s.len() > 6 && s.skip(6) == dec_digits((-id) as nat),
{
    assert(s.take(5) =~= key_prefix());
    if id >= 0 {
        lemma_dec_digits_canonical(id as nat);
        assert(s.skip(5) =~= dec_digits(id as nat));
        assert(s[5] == s.skip(5)[0]);
        assert(is_digit(s[5]));
    } else {
        lemma_dec_digits_canonical((-id) as nat);
        assert(s.skip(5) =~= seq!['-'] + dec_digits((-id) as nat));
        assert(s[5] == s.skip(5)[0]);
        assert(s.skip(6) =~= dec_digits((-id) as nat));
    }
}

proof fn lemma_no_id_when_not_key(s: Seq<char>)
    requires
        !is_key(s),
    ensures
        forall|id: i64| s != key_chars(id as int),
{
    assert forall|id: i64| s != key_chars(id as int) by {
        if s == key_chars(id as int) {
            lemma_key_chars_is_key(id as int);
        }
    }
}

proof fn lemma_pow10_concrete()
    ensures
        pow10(18) == 1000000000000000000,
        pow10(19) == 10000000000000000000,
{
    reveal_with_fuel(pow10, 21);
}

/// The one-character string for a digit value.
fn digit_str(d: u8) -> (r: &'static str)
    requires
        d < 10,
    ensures
        r@ == seq![digit_char(d as int)],
{
    match d {
        0 => {
            proof {
                reveal_strlit("0");
                assert("0"@ =~= seq![digit_char(0)]);
            }
            "0"
        },
        1 => {
            proof {
                reveal_strlit("1");
                assert("1"@ =~= seq![digit_char(1)]);
            }
            "1"
        },
        2 => {
            proof {
                reveal_strlit("2");
                assert("2"@ =~= seq![digit_char(2)]);
            }
            "2"
        },
        3 => {
            proof {
                reveal_strlit("3");
                assert("3"@ =~= seq![digit_char(3)]);
            }
            "3"
        },
        4 => {
            proof {
                reveal_strlit("4");
                assert("4"@ =~= seq![digit_char(4)]);
            }
            "4"
        },
        5 => {
            proof {
                reveal_strlit("5");
                assert("5"@ =~= seq![digit_char(5)]);
            }
            "5"
        },
        6 => {
            proof {
                reveal_strlit("6");
                assert("6"@ =~= seq![digit_char(6)]);
            }
            "6"
        },
        7 => {
            proof {
                reveal_strlit("7");
                assert("7"@ =~= seq![digit_char(7)]);
            }
            "7"
        },
        8 => {
            proof {
                reveal_strlit("8");
                assert("8"@ =~= seq![digit_char(8)]);
            }
            "8"
        },
        _ => {
            proof {
                reveal_strlit("9");
                assert("9"@ =~= seq![digit_char(9)]);
            }
            "9"
        },
    }
}

/// Appends the decimal digits of `n` to `s`.
fn push_digits(s: &mut String, n: u64)
    ensures
        final(s)@ == old(s)@ + dec_digits(n as nat),
    decreases n,
{
    if n >= 10 {
        push_digits(s, n / 10);
    }
    let d: u8 = (n % 10) as u8;
    s.append(digit_str(d));
    proof {
        assert(s@ =~= old(s)@ + dec_digits(n as nat));
    }
}

/// Derives the identity key of the item with id `id`.
pub fn key_of(id: i64) -> (k: String)
    ensures
        k@ == key_chars(id as int),
{
    let mut s = String::from_str("item-");
    proof {
        reveal_strlit("item-");
        assert(s@ =~= key_prefix());
    }
    if id >= 0 {
        push_digits(&mut s, id as u64);
    } else {
        s.append("-");
        proof {
            reveal_strlit("-");
        }
        let m: u64 = ((-(id + 1)) as u64) + 1;
        proof {
            assert(m as int == -(id as int));
        }
        push_digits(&mut s, m);
    }
    proof {
        assert(s@ =~= key_chars(id as int));
    }
    s
}

/// Reads the id back out of an identity key.
///
/// Succeeds exactly on the canonical key of some id; every other string is
/// rejected as malformed, so a caller never silently coerces a corrupted key.
pub fn id_of(k: &str) -> (r: Result<i64, crate::errors::DragError>)
    ensures
        match r {
            Ok(id) => k@ == key_chars(id as int),
            Err(e) => e == crate::errors::DragError::MalformedKey && (forall|id: i64|
                k@ != key_chars(id as int)),
        },
{
    let n = k.unicode_len();
    if n <= 5 {
        proof {
            lemma_no_id_when_not_key(k@);
        }
        return Err(crate::errors::DragError::MalformedKey);
    }
    let ok_prefix = k.get_char(0) == 'i' && k.get_char(1) == 't' && k.get_char(2) == 'e'
        && k.get_char(3) == 'm' && k.get_char(4) == '-';
    if !ok_prefix {
        proof {
            if is_key(k@) {
                assert(k@.take(5)[0] == k@[0]);
                assert(k@.take(5)[1] == k@[1]);
                assert(k@.take(5)[2] == k@[2]);
                assert(k@.take(5)[3] == k@[3]);
                assert(k@.take(5)[4] == k@[4]);
                assert(false);
            }
            lemma_no_id_when_not_key(k@);
        }
        return Err(crate::errors::DragError::MalformedKey);
    }
    proof {
        assert(k@.take(5) =~= key_prefix());
    }
    let c5 = k.get_char(5);
    let neg = c5 == '-';
    if neg && n == 6 {
        proof {
            if is_key(k@) {
                assert(k@.skip(5)[0] == k@[5]);
                assert(k@.skip(5).len() == 1);
                assert(false);
            }
            lemma_no_id_when_not_key(k@);
        }
        return Err(crate::errors::DragError::MalformedKey);
    }
    let start: usize = if neg {
        6
    } else {
        5
    };
    let first = k.get_char(start);
    if first == '0' && n - start > 1 {
        proof {
            if is_key(k@) {
                let body = k@.skip(5);
                assert(body[0] == k@[5]);
                if neg {
                    assert(body.skip(1)[0] == k@[6]);
                    assert(body.skip(1).len() == n - 6);
                    assert(canonical_digits(body.skip(1)));
                } else {
                    assert(body.len() == n - 5);
                    assert(canonical_digits(body));
                }
                assert(false);
            }
            lemma_no_id_when_not_key(k@);
        }
        return Err(crate::errors::DragError::MalformedKey);
    }
    if n - start >= 20 {
        proof {
            lemma_pow10_concrete();
            assert forall|id: i64| k@ != key_chars(id as int) by {
                if k@ == key_chars(id as int) {
                    lemma_key_digits(k@, id as int);
                    if id >= 0 {
                        let mag = (id as int) as nat;
                        lemma_dec_digits_canonical(mag);
                        assert(k@.skip(5) == dec_digits(mag));
                        assert(dec_digits(mag).len() == n - 5 >= 20);
                        lemma_digits_lower(dec_digits(mag));
                        lemma_pow10_mono(19, (dec_digits(mag).len() - 1) as nat);
                        assert(digits_val(dec_digits(mag)) == mag);
                        assert(false);
                    } else {
                        let mag = (-(id as int)) as nat;
                        lemma_dec_digits_canonical(mag);
                        assert(k@[5] == '-');
                        assert(k@.skip(6) == dec_digits(mag));
                        assert(dec_digits(mag).len() == n - 6 >= 20);
                        lemma_digits_lower(dec_digits(mag));
                        lemma_pow10_mono(19, (dec_digits(mag).len() - 1) as nat);
                        assert(digits_val(dec_digits(mag)) == mag);
                        assert(false);
                    }
                }
            }
        }
        return Err(crate::errors::DragError::MalformedKey);
    }
    let mut acc: u64 = 0;
    let mut p: usize = start;
    while p < n
        invariant
            5 <= start as int,
            start <= p,
            p <= n,
            (start as int) < n as int,
            5 < n as int,
            n as int == k@.len(),
            n as int - start as int <= 19,
            k@.take(5) == key_prefix(),
            neg <==> k@[5] == '-',
            start as int == if neg {
                6int
            } else {
                5int
            },
            neg ==> n as int > 6,
            n as int - start as int > 1 ==> k@[start as int] != '0',
            all_digits(k@.subrange(start as int, p as int)),
            acc as int == digits_val(k@.subrange(start as int, p as int)),
            (acc as int) < pow10((p - start) as nat),
        decreases n as int - p as int,
    {
        let c = k.get_char(p);
        let d: u8 = match c {
            '0' => 0u8,
            '1' => 1u8,
            '2' => 2u8,
            '3' => 3u8,
            '4' => 4u8,
            '5' => 5u8,
            '6' => 6u8,
            '7' => 7u8,
            '8' => 8u8,
            '9' => 9u8,
            _ => {
                proof {
                    if is_key(k@) {
                        let body = k@.skip(5);
                        assert(body[0] == k@[5]);
                        if neg {
                            assert(body.skip(1)[p as int - 6] == k@[p as int]);
                            assert(is_digit(body.skip(1)[p as int - 6]));
                        } else {
                            assert(body[p as int - 5] == k@[p as int]);
                            assert(is_digit(body[p as int - 5]));
                        }
                        assert(false);
                    }
                    lemma_no_id_when_not_key(k@);
                }
                return Err(crate::errors::DragError::MalformedKey);
            },
        };
        proof {
            lemma_pow10_concrete();
            lemma_pow10_mono((p - start) as nat, 18);
        }
        let ghost pre = k@.subrange(start as int, p as int);
        acc = acc * 10 + (d as u64);
        p = p + 1;
        proof {
            let post = k@.subrange(start as int, p as int);
            assert(post =~= pre.push(k@[p as int - 1]));
            lemma_digits_val_push(pre, k@[p as int - 1]);
            assert(digit_val(k@[p as int - 1]) == d as int);
            assert(pow10((p - start) as nat) == 10 * pow10((p - 1 - start) as nat));
        }
    }
    let ghost digits = k@.subrange(start as int, n as int);
    proof {
        assert(digits.len() >= 1);
        assert(digits[0] == k@[start as int]);
        assert(canonical_digits(digits));
    }
    if neg {
        proof {
            assert(k@.skip(5)[0] == k@[5]);
            assert(k@.skip(5).skip(1) =~= digits);
        }
        if acc == 0 {
            proof {
                assert(!is_key(k@));
                lemma_no_id_when_not_key(k@);
            }
            return Err(crate::errors::DragError::MalformedKey);
        }
        proof {
            assert(is_key(k@));
            assert(key_val(k@) == -(acc as int));
        }
        if acc > 9223372036854775808u64 {
            proof {
                assert forall|id: i64| k@ != key_chars(id as int) by {
                    if k@ == key_chars(id as int) {
                        lemma_key_chars_is_key(id as int);
                    }
                }
            }
            return Err(crate::errors::DragError::MalformedKey);
        }
        proof {
            lemma_is_key_unique(k@);
        }
        if acc == 9223372036854775808u64 {
            return Ok(i64::MIN);
        }
        let v: i64 = -(acc as i64);
        return Ok(v);
    } else {
        proof {
            assert(k@.skip(5) =~= digits);
            assert(k@.skip(5)[0] == k@[5]);
            assert(is_key(k@));
            assert(key_val(k@) == acc as int);
        }
        if acc > 9223372036854775807u64 {
            proof {
                assert forall|id: i64| k@ != key_chars(id as int) by {
                    if k@ == key_chars(id as int) {
                        lemma_key_chars_is_key(id as int);
                    }
                }
            }
            return Err(crate::errors::DragError::MalformedKey);
        }
        proof {
            lemma_is_key_unique(k@);
        }
        return Ok(acc as i64);
    }
}

} // verus!
