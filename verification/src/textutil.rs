//! Verified text helpers: character access, decimal numbers, and the
//! version-token naming of stored history files.

use vstd::prelude::*;

verus! {

/// Relies on `str::chars`: the characters of the text, in order.
#[verifier::external_body]
pub fn str_to_chars(s: &str) -> (r: Vec<char>)
    ensures
        r@ == s@,
{
    s.chars().collect()
}

/// Relies on `String`'s `FromIterator<char>`: the text holding exactly
/// these characters, in order.
#[verifier::external_body]
pub fn chars_to_string(v: &Vec<char>) -> (r: String)
    ensures
        r@ == v@,
{
    v.iter().collect()
}

/// The decimal digit for one value below ten.
pub open spec fn digit_char(d: int) -> char {
    ((48 + d) as u8) as char
}

/// The decimal writing of a non-negative number, most significant digit
/// first.
pub open spec fn dec_digits(n: int) -> Seq<char>
    decreases n,
{
    if n < 10 {
        seq![digit_char(n)]
    } else {
        dec_digits(n / 10).push(digit_char(n % 10))
    }
}

/// Writes a non-negative number in decimal.
pub fn to_decimal(n: i32) -> (r: Vec<char>)
    requires
        n >= 0,
    ensures
        r@ == dec_digits(n as int),
{
    let mut rev: Vec<char> = Vec::new();
    let mut rest: i32 = n;
    proof {
        assert(dec_digits(n as int) =~= dec_digits(rest as int) + rev@.reverse());
    }
    loop
        invariant_except_break
            0 <= rest <= n,
            dec_digits(n as int) == dec_digits(rest as int) + rev@.reverse(),
        ensures
            dec_digits(n as int) == rev@.reverse(),
        decreases rest,
    {
        let ghost rest0 = rest as int;
        let d: u8 = (rest % 10) as u8;
        let ghost rev_before = rev@;
        rev.push((48 + d) as char);
        proof {
            assert(rev@ == rev_before.push(digit_char(rest0 % 10)));
            assert(rev@.reverse() =~= seq![digit_char(rest0 % 10)] + rev_before.reverse());
        }
        if rest < 10 {
            proof {
                assert(dec_digits(rest0) == seq![digit_char(rest0)]);
                assert(dec_digits(n as int) =~= rev@.reverse());
            }
            break ;
        }
        rest = rest / 10;
        proof {
            assert(dec_digits(rest0) == dec_digits(rest0 / 10).push(digit_char(rest0 % 10)));
            assert(dec_digits(rest0 / 10) + (seq![digit_char(rest0 % 10)] + rev_before.reverse())
                =~= dec_digits(rest0) + rev_before.reverse());
        }
    }
    let mut r: Vec<char> = Vec::new();
    let mut i: usize = rev.len();
    while i > 0
        invariant
            i <= rev@.len(),
            r@ == rev@.reverse().take(rev@.len() - i),
        decreases i,
    {
        i = i - 1;
        r.push(rev[i]);
        proof {
            assert(rev@.reverse()[rev@.len() - i - 1] == rev@[i as int]);
            assert(r@ =~= rev@.reverse().take(rev@.len() - i));
        }
    }
    proof {
        assert(rev@.reverse().take(rev@.len() as int) =~= rev@.reverse());
    }
    r
}

/// The position just past the last dot of the text, or nothing when no
/// dot occurs.
pub open spec fn last_dot_index(s: Seq<char>) -> Option<int> {
    if exists|i: int| 0 <= i < s.len() && s[i] == '.' {
        Some(choose|i: int| 0 <= i < s.len() && s[i] == '.' && forall|j: int|
            i < j < s.len() ==> s[j] != '.')
    } else {
        None
    }
}

/// Finds the index of the last dot of the text, if one occurs.
pub fn find_last_dot(s: &Vec<char>) -> (r: Option<usize>)
    ensures
        match r {
            Some(i) => i < s@.len() && s@[i as int] == '.' && (forall|j: int|
                i < j < s@.len() ==> s@[j] != '.'),
            None => forall|j: int| 0 <= j < s@.len() ==> s@[j] != '.',
        },
{
    let mut i: usize = s.len();
    while i > 0
        invariant
            i <= s@.len(),
            forall|j: int| i <= j < s@.len() ==> s@[j] != '.',
        decreases i,
    {
        i = i - 1;
        if s[i] == '.' {
            return Some(i);
        }
    }
    None
}

/// The name a version of a file is stored under: the version number as a
/// token before the final extension, or appended when the path has no
/// extension.
pub open spec fn snapshot_name(path: Seq<char>, version: int) -> Seq<char> {
    match last_dot_index(path) {
        Some(i) => path.take(i) + seq!['.'] + dec_digits(version) + path.skip(i),
        None => path + seq!['.'] + dec_digits(version),
    }
}

/// Builds the storage name of one version of a path, inserting the
/// version token before the final extension.
pub fn snapshot_id(path: &String, version: i32) -> (r: String)
    requires
        version >= 0,
    ensures
        r@ == snapshot_name(path@, version as int),
{
    let chars = str_to_chars(path.as_str());
    let digits = to_decimal(version);
    let mut out: Vec<char> = Vec::new();
    match find_last_dot(&chars) {
        Some(i) => {
            proof {
                assert(last_dot_index(path@) is Some);
                let w = last_dot_index(path@)->Some_0;
                assert(0 <= w < path@.len() && path@[w] == '.' && forall|j: int|
                    w < j < path@.len() ==> path@[j] != '.');
                assert(w == i as int) by {
                    if w < i as int {
                        assert(path@[i as int] != '.');
                    }
                    if w > i as int {
                        assert(path@[w] != '.');
                    }
                }
            }
            let n = chars.len();
            for k in 0..i
                invariant
                    i < n,
                    n == chars@.len(),
                    out@ == chars@.take(k as int),
            {
                out.push(chars[k]);
                proof {
                    assert(out@ =~= chars@.take(k + 1));
                }
            }
            out.push('.');
            let dn = digits.len();
            for k in 0..dn
                invariant
                    dn == digits@.len(),
                    out@ == chars@.take(i as int) + seq!['.'] + digits@.take(k as int),
            {
                out.push(digits[k]);
                proof {
                    assert(out@ =~= chars@.take(i as int) + seq!['.'] + digits@.take(k + 1));
                }
            }
            for k in i..n
                invariant
                    i <= k <= n,
                    n == chars@.len(),
                    out@ == chars@.take(i as int) + seq!['.'] + digits@ + chars@.subrange(
                        i as int,
                        k as int,
                    ),
            {
                out.push(chars[k]);
                proof {
                    assert(out@ =~= chars@.take(i as int) + seq!['.'] + digits@ + chars@.subrange(
                        i as int,
                        k + 1,
                    ));
                }
            }
            proof {
                assert(digits@.take(dn as int) =~= digits@);
                assert(chars@.subrange(i as int, n as int) =~= chars@.skip(i as int));
                assert(out@ =~= snapshot_name(path@, version as int));
            }
        },
        None => {
            proof {
                assert(last_dot_index(path@) is None);
            }
            let n = chars.len();
            for k in 0..n
                invariant
                    n == chars@.len(),
                    out@ == chars@.take(k as int),
            {
                out.push(chars[k]);
                proof {
                    assert(out@ =~= chars@.take(k + 1));
                }
            }
            out.push('.');
            let dn = digits.len();
            for k in 0..dn
                invariant
                    dn == digits@.len(),
                    out@ == chars@ + seq!['.'] + digits@.take(k as int),
            {
                out.push(digits[k]);
                proof {
                    assert(out@ =~= chars@ + seq!['.'] + digits@.take(k + 1));
                }
            }
            proof {
                assert(chars@.take(n as int) =~= chars@);
                assert(digits@.take(dn as int) =~= digits@);
                assert(out@ =~= snapshot_name(path@, version as int));
            }
        },
    }
    chars_to_string(&out)
}

/// Appends the characters of a text.
pub fn push_chars(out: &mut Vec<char>, s: &str)
    ensures
        final(out)@ == old(out)@ + s@,
{
    let chars = str_to_chars(s);
    let n = chars.len();
    for i in 0..n
        invariant
            n == chars@.len(),
            chars@ == s@,
            out@ == old(out)@ + chars@.take(i as int),
    {
        out.push(chars[i]);
        proof {
            assert(out@ =~= old(out)@ + chars@.take(i + 1));
        }
    }
    proof {
        assert(old(out)@ + chars@.take(n as int) =~= old(out)@ + s@);
    }
}

pub fn push_seq(out: &mut Vec<char>, s: &Vec<char>)
    ensures
        final(out)@ == old(out)@ + s@,
{
    let n = s.len();
    for i in 0..n
        invariant
            n == s@.len(),
            out@ == old(out)@ + s@.take(i as int),
    {
        out.push(s[i]);
        proof {
            assert(out@ =~= old(out)@ + s@.take(i + 1));
        }
    }
    proof {
        assert(old(out)@ + s@.take(n as int) =~= old(out)@ + s@);
    }
}

/// Are two texts the same sequence of characters?
pub fn str_eq(a: &str, b: &str) -> (r: bool)
    ensures
        r == (a@ == b@),
{
    let ac = str_to_chars(a);
    let bc = str_to_chars(b);
    if ac.len() != bc.len() {
        proof {
            assert(a@.len() != b@.len());
        }
        return false;
    }
    let n = ac.len();
    for k in 0..n
        invariant
            n == ac@.len() && n == bc@.len(),
            ac@ == a@ && bc@ == b@,
            forall|j: int| 0 <= j < k ==> ac@[j] == bc@[j],
    {
        if ac[k] != bc[k] {
            return false;
        }
    }
    proof {
        assert(a@ =~= b@);
    }
    true
}

/// A decimal digit's code point, and what it therefore is not.
pub proof fn lemma_digit_char(d: int)
    requires
        0 <= d < 10,
    ensures
        digit_char(d) as u32 == 48 + d,
        digit_char(d) != '\n',
{
}

/// The shape of a decimal writing: at least one character, every one a
/// digit, a single digit exactly for values below ten, and no leading
/// zero otherwise.
pub proof fn lemma_dec_digits_shape(n: int)
    requires
        n >= 0,
    ensures
        dec_digits(n).len() >= 1,
        forall|j: int|
            0 <= j < dec_digits(n).len() ==> 48 <= (#[trigger] dec_digits(n)[j]) as u32 <= 57,
        forall|j: int| 0 <= j < dec_digits(n).len() ==> (#[trigger] dec_digits(n)[j]) != '\n',
        (n < 10 <==> dec_digits(n).len() == 1),
        dec_digits(n).len() > 1 ==> dec_digits(n)[0] != '0',
    decreases n,
{
    if n < 10 {
        lemma_digit_char(n);
    } else {
        lemma_dec_digits_shape(n / 10);
        lemma_digit_char(n % 10);
        assert(dec_digits(n) == dec_digits(n / 10).push(digit_char(n % 10)));
        assert forall|j: int| 0 <= j < dec_digits(n).len() implies 48 <= (
        #[trigger] dec_digits(n)[j]) as u32 <= 57 by {
            if j < dec_digits(n).len() - 1 {
                assert(dec_digits(n)[j] == dec_digits(n / 10)[j]);
            }
        }
        assert forall|j: int| 0 <= j < dec_digits(n).len() implies (#[trigger] dec_digits(n)[j])
            != '\n' by {
            if j < dec_digits(n).len() - 1 {
                assert(dec_digits(n)[j] == dec_digits(n / 10)[j]);
            }
        }
        assert(dec_digits(n)[0] == dec_digits(n / 10)[0]);
        if dec_digits(n / 10).len() == 1 {
            assert(n / 10 >= 1);
            assert(dec_digits(n / 10)[0] == digit_char(n / 10));
            assert(digit_char(n / 10) as u32 == 48 + n / 10);
            assert('0' as u32 == 48);
            assert(dec_digits(n)[0] != '0');
        }
    }
}

/// Two values with one decimal writing are one value.
pub proof fn lemma_dec_digits_injective(a: int, b: int)
    requires
        a >= 0,
        b >= 0,
        dec_digits(a) == dec_digits(b),
    ensures
        a == b,
    decreases a,
{
    lemma_dec_digits_shape(a);
    lemma_dec_digits_shape(b);
    if a < 10 && b < 10 {
        lemma_digit_char(a);
        lemma_digit_char(b);
        assert(dec_digits(a)[0] == digit_char(a));
        assert(dec_digits(b)[0] == digit_char(b));
        assert(digit_char(a) as u32 == digit_char(b) as u32);
    } else if a >= 10 && b >= 10 {
        assert(dec_digits(a) == dec_digits(a / 10).push(digit_char(a % 10)));
        assert(dec_digits(b) == dec_digits(b / 10).push(digit_char(b % 10)));
        assert(dec_digits(a / 10) =~= dec_digits(a).drop_last());
        assert(dec_digits(b / 10) =~= dec_digits(b).drop_last());
        lemma_dec_digits_injective(a / 10, b / 10);
        lemma_digit_char(a % 10);
        lemma_digit_char(b % 10);
        assert(dec_digits(a).last() == digit_char(a % 10));
        assert(dec_digits(b).last() == digit_char(b % 10));
        assert(digit_char(a % 10) as u32 == digit_char(b % 10) as u32);
        assert(a % 10 == b % 10);
        assert(a == 10 * (a / 10) + a % 10);
        assert(b == 10 * (b / 10) + b % 10);
    } else {
        assert(dec_digits(a).len() == dec_digits(b).len());
        assert(false);
    }
}

/// Every front part of a decimal writing is itself the decimal writing
/// of a value no greater than the whole.
pub proof fn lemma_dec_digits_prefix(n: int, j: int)
    requires
        n >= 0,
        1 <= j <= dec_digits(n).len(),
    ensures
        exists|v: int| 0 <= v <= n && #[trigger] dec_digits(v) == dec_digits(n).take(j),
    decreases n,
{
    lemma_dec_digits_shape(n);
    if j == dec_digits(n).len() {
        assert(dec_digits(n).take(j) =~= dec_digits(n));
        assert(0 <= n <= n && dec_digits(n) == dec_digits(n).take(j));
    } else {
        assert(n >= 10);
        assert(dec_digits(n) == dec_digits(n / 10).push(digit_char(n % 10)));
        assert(dec_digits(n).take(j) =~= dec_digits(n / 10).take(j));
        lemma_dec_digits_prefix(n / 10, j);
        let v = choose|v: int| 0 <= v <= n / 10 && #[trigger] dec_digits(v) == dec_digits(
            n / 10,
        ).take(j);
        assert(0 <= v <= n && dec_digits(v) == dec_digits(n).take(j));
    }
}

} // verus!
