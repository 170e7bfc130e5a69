//! Splitting a line of source text into tokens: whitespace separates words,
//! and a word that reads as a 32-bit signed integer becomes a number.
use vstd::prelude::*;
use vstd::std_specs::iter::IteratorSpec;
use crate::value::{Value, ValueView, tokens};

verus! {

broadcast use {vstd::string::axiom_spec_iter, vstd::string::next_postcondition};

/// The characters of `s`.
fn chars_of(s: &str) -> (r: Vec<char>)
    ensures
        r@ == s@,
{
    let mut it = s.chars();
    let mut r: Vec<char> = Vec::new();
    loop
        invariant
            r@ + it.remaining() == s@,
            it.decrease() is Some,
        decreases it.decrease()->0,
    {
        match it.next() {
            Some(c) => {
                r.push(c);
            },
            None => {
                return r;
            },
        }
    }
}

/// Whether `c` has Unicode's White_Space property, the characters that
/// separate words.
pub open spec fn is_space(c: char) -> bool {
    let u = c as u32;
    (0x9 <= u <= 0xD) || u == 0x20 || u == 0x85 || u == 0xA0 || u == 0x1680 || (0x2000 <= u
        <= 0x200A) || u == 0x2028 || u == 0x2029 || u == 0x202F || u == 0x205F || u == 0x3000
}

/// The words of `s` from position `i` on, where `cur` holds the part of a
/// word read before `i`: the maximal runs of characters that are not white
/// space.
pub open spec fn words_from(s: Seq<char>, i: int, cur: Seq<char>) -> Seq<Seq<char>>
    decreases s.len() - i,
{
    if i < 0 || i >= s.len() {
        if cur.len() > 0 {
            seq![cur]
        } else {
            Seq::empty()
        }
    } else if is_space(s[i]) {
        if cur.len() > 0 {
            seq![cur] + words_from(s, i + 1, Seq::empty())
        } else {
            words_from(s, i + 1, Seq::empty())
        }
    } else {
        words_from(s, i + 1, cur.push(s[i]))
    }
}

/// The words of `s`, in order.
pub open spec fn words(s: Seq<char>) -> Seq<Seq<char>> {
    words_from(s, 0, Seq::empty())
}

/// Whether `c` is an ASCII decimal digit.
pub open spec fn is_digit(c: char) -> bool {
    48 <= c as u32 <= 57
}

/// The value of a string of decimal digits.
pub open spec fn digits_value(ds: Seq<char>) -> int
    decreases ds.len(),
{
    if ds.len() == 0 {
        0
    } else {
        digits_value(ds.drop_last()) * 10 + (ds.last() as u32 - 48)
    }
}

/// Whether `w` starts with a sign.
pub open spec fn has_sign(w: Seq<char>) -> bool {
    w.len() > 0 && (w[0] == '-' || w[0] == '+')
}

/// `w` without its sign.
pub open spec fn unsigned_part(w: Seq<char>) -> Seq<char> {
    if has_sign(w) {
        w.drop_first()
    } else {
        w
    }
}

/// Whether `ds` is a non-empty run of decimal digits.
pub open spec fn all_digits(ds: Seq<char>) -> bool {
    ds.len() > 0 && forall|k: int| 0 <= k < ds.len() ==> is_digit(#[trigger] ds[k])
}

/// The 32-bit signed integer that `w` reads as: an optional `+` or `-`
/// followed by at least one decimal digit, within range.
pub open spec fn parse_i32(w: Seq<char>) -> Option<i32> {
    let v = if has_sign(w) && w[0] == '-' {
        -digits_value(unsigned_part(w))
    } else {
        digits_value(unsigned_part(w))
    };
    if all_digits(unsigned_part(w)) && i32::MIN <= v <= i32::MAX {
        Some(v as i32)
    } else {
        None
    }
}

/// The token that a word stands for.
pub open spec fn token_of(w: Seq<char>) -> ValueView {
    match parse_i32(w) {
        Some(n) => ValueView::Number(n),
        None => ValueView::Word(w),
    }
}

/// The tokens of a line of source text.
pub open spec fn tokenize(s: Seq<char>) -> Seq<ValueView> {
    words(s).map_values(|w: Seq<char>| token_of(w))
}

/// Relies on `String::push`, which appends one character.
#[verifier::external_body]
fn push_char(s: &mut String, c: char)
    ensures
        final(s)@ == old(s)@.push(c),
{
    s.push(c)
}

fn string_of(w: &Vec<char>) -> (r: String)
    ensures
        r@ == w@,
{
    let mut r = String::new();
    let mut i: usize = 0;
    while i < w.len()
        invariant
            i <= w.len(),
            r@ == w@.subrange(0, i as int),
        decreases w.len() - i,
    {
        push_char(&mut r, w[i]);
        i += 1;
        assert(r@ =~= w@.subrange(0, i as int));
    }
    assert(w@.subrange(0, i as int) =~= w@);
    r
}

fn is_space_char(c: char) -> (r: bool)
    ensures
        r == is_space(c),
{
    let u = c as u32;
    (0x9 <= u && u <= 0xD) || u == 0x20 || u == 0x85 || u == 0xA0 || u == 0x1680 || (0x2000 <= u
        && u <= 0x200A) || u == 0x2028 || u == 0x2029 || u == 0x202F || u == 0x205F || u == 0x3000
}

proof fn lemma_digits_value_nonneg(ds: Seq<char>)
    requires
        forall|k: int| 0 <= k < ds.len() ==> is_digit(#[trigger] ds[k]),
    ensures
        digits_value(ds) >= 0,
    decreases ds.len(),
{
    if ds.len() > 0 {
        let d = ds.drop_last();
        assert forall|k: int| 0 <= k < d.len() implies is_digit(#[trigger] d[k]) by {
            assert(d[k] == ds[k]);
        }
        lemma_digits_value_nonneg(d);
        assert(is_digit(ds[ds.len() - 1]));
    }
}

/// Bound above which a run of digits is out of range whatever its sign.
const CAP: u64 = 2147483649;

fn parse_number(w: &Vec<char>) -> (r: Option<i32>)
    ensures
        r == parse_i32(w@),
{
    let n = w.len();
    if n == 0 {
        return None;
    }
    let signed = w[0] == '-' || w[0] == '+';
    let neg = w[0] == '-';
    let start: usize = if signed {
        1
    } else {
        0
    };
    let ghost ds = unsigned_part(w@);
    assert(ds =~= w@.subrange(start as int, n as int));
    if start >= n {
        return None;
    }
    let mut v: u64 = 0;
    let mut i: usize = start;
    while i < n
        invariant
            start <= i <= n,
            n == w@.len(),
            n > 0,
            ds == w@.subrange(start as int, n as int),
            ds == unsigned_part(w@),
            neg == (w@[0] == '-'),
            start < n,
            forall|k: int| start <= k < i ==> is_digit(#[trigger] w@[k]),
            v == (if digits_value(w@.subrange(start as int, i as int)) < CAP {
                digits_value(w@.subrange(start as int, i as int))
            } else {
                CAP as int
            }),
        decreases n - i,
    {
        let c = w[i];
        let u = c as u32;
        if u < 48 || u > 57 {
            assert(ds[i - start] == w@[i as int]);
            assert(!all_digits(ds));
            return None;
        }
        let d = (u - 48) as u64;
        proof {
            let p = w@.subrange(start as int, i as int + 1);
            assert(p.drop_last() =~= w@.subrange(start as int, i as int));
            assert forall|k: int| 0 <= k < p.drop_last().len() implies is_digit(#[trigger] p.drop_last()[k]) by {
                assert(p.drop_last()[k] == w@[start + k]);
            }
            lemma_digits_value_nonneg(p.drop_last());
        }
        v = if v * 10 + d > CAP {
            CAP
        } else {
            v * 10 + d
        };
        i += 1;
    }
    proof {
        assert(w@.subrange(start as int, n as int) =~= ds);
        assert forall|k: int| 0 <= k < ds.len() implies is_digit(#[trigger] ds[k]) by {
            assert(ds[k] == w@[start + k]);
        }
        lemma_digits_value_nonneg(ds);
    }
    if neg {
        if v > 2147483648 {
            None
        } else {
            Some((-(v as i64)) as i32)
        }
    } else {
        if v > 2147483647 {
            None
        } else {
            Some(v as i32)
        }
    }
}

fn make_token(w: &Vec<char>) -> (r: Value)
    ensures
        r@ == token_of(w@),
{
    match parse_number(w) {
        Some(n) => Value::Number(n),
        None => Value::Word(string_of(w)),
    }
}

/// Splits `line` into tokens at white space; a word that reads as a 32-bit
/// signed integer becomes a number, any other a word.
pub fn tokenize_input(line: &String) -> (r: Vec<Value>)
    ensures
        tokens(r@) == tokenize(line@),
{
    let cs = chars_of(line.as_str());
    let mut out: Vec<Value> = Vec::new();
    let mut cur: Vec<char> = Vec::new();
    let ghost mut done: Seq<Seq<char>> = Seq::empty();
    let mut i: usize = 0;
    while i < cs.len()
        invariant
            i <= cs.len(),
            cs@ == line@,
            words(cs@) == done + words_from(cs@, i as int, cur@),
            tokens(out@) == done.map_values(|w: Seq<char>| token_of(w)),
        decreases cs.len() - i,
    {
        let c = cs[i];
        if is_space_char(c) {
            if cur.len() > 0 {
                let t = make_token(&cur);
                let ghost old_out = out@;
                out.push(t);
                proof {
                    assert(tokens(out@) =~= tokens(old_out).push(t@));
                    let old_done = done;
                    done = done.push(cur@);
                    assert(old_done + (seq![cur@] + words_from(cs@, i + 1, Seq::empty())) =~= done
                        + words_from(cs@, i + 1, Seq::empty()));
                    assert(done.map_values(|w: Seq<char>| token_of(w)) =~= old_done.map_values(
                        |w: Seq<char>| token_of(w),
                    ).push(token_of(cur@)));
                }
            }
            cur = Vec::new();
        } else {
            cur.push(c);
        }
        i += 1;
    }
    if cur.len() > 0 {
        let t = make_token(&cur);
        let ghost old_out = out@;
        out.push(t);
        proof {
            assert(tokens(out@) =~= tokens(old_out).push(t@));
            let old_done = done;
            done = done.push(cur@);
            assert(old_done + seq![cur@] =~= done);
            assert(done.map_values(|w: Seq<char>| token_of(w)) =~= old_done.map_values(
                |w: Seq<char>| token_of(w),
            ).push(token_of(cur@)));
        }
    } else {
        assert(done + Seq::<Seq<char>>::empty() =~= done);
    }
    out
}

} // verus!
