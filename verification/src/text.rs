//! Character-level helpers shared by the encoder and the decoder:
//! ASCII classification, decimal digit strings, and verified string
//! comparison.

use vstd::prelude::*;

verus! {

/// ASCII whitespace: space, tab, line feed, form feed, carriage return.
/// Reply lines are split into words at runs of these characters.
pub open spec fn is_ascii_space(c: char) -> bool {
    c == ' ' || c == '\t' || c == '\n' || c == '\u{000C}' || c == '\r'
}

/// ASCII decimal digit.
pub open spec fn is_ascii_digit(c: char) -> bool {
    '0' <= c && c <= '9'
}

/// The numeric value of an ASCII decimal digit.
pub open spec fn digit_val(c: char) -> nat
    recommends
        is_ascii_digit(c),
{
    (c as nat - '0' as nat) as nat
}

/// The ASCII digit character for a value below ten.
pub open spec fn digit_char(d: nat) -> char
    recommends
        d < 10,
{
    if d == 0 {
        '0'
    } else if d == 1 {
        '1'
    } else if d == 2 {
        '2'
    } else if d == 3 {
        '3'
    } else if d == 4 {
        '4'
    } else if d == 5 {
        '5'
    } else if d == 6 {
        '6'
    } else if d == 7 {
        '7'
    } else if d == 8 {
        '8'
    } else {
        '9'
    }
}

/// The canonical decimal digit string of `n`, most significant digit first,
/// with no leading zeros (`0` itself is the single digit `0`).
pub open spec fn dec_digits_of(n: nat) -> Seq<char>
    decreases n,
{
    if n < 10 {
        seq![digit_char(n)]
    } else {
        dec_digits_of(n / 10).push(digit_char(n % 10))
    }
}

/// The value of a digit string read as a base-ten number.
pub open spec fn dec_val(digits: Seq<char>) -> nat
    decreases digits.len(),
{
    if digits.len() == 0 {
        0
    } else {
        dec_val(digits.drop_last()) * 10 + digit_val(digits.last())
    }
}

/// A digit string's value never shrinks as more characters are appended.
pub proof fn lemma_dec_val_prefix(s: Seq<char>, k: int)
    requires
        0 <= k <= s.len(),
    ensures
        dec_val(s.take(k)) <= dec_val(s),
    decreases s.len(),
{
    if k == s.len() {
        assert(s.take(k) =~= s);
    } else {
        lemma_dec_val_prefix(s.drop_last(), k);
        assert(s.drop_last().take(k) =~= s.take(k));
    }
}

/// Whether every character of `digits` is an ASCII decimal digit.
pub open spec fn all_digits(digits: Seq<char>) -> bool {
    forall|i: int| 0 <= i < digits.len() ==> is_ascii_digit(#[trigger] digits[i])
}

/// A one-character string for each decimal digit value.
fn digit_str(d: u64) -> (s: &'static str)
    requires
        d < 10,
    ensures
        s@ == seq![digit_char(d as nat)],
{
    proof {
        reveal_strlit("0");
        reveal_strlit("1");
        reveal_strlit("2");
        reveal_strlit("3");
        reveal_strlit("4");
        reveal_strlit("5");
        reveal_strlit("6");
        reveal_strlit("7");
        reveal_strlit("8");
        reveal_strlit("9");
    }
    let s = if d == 0 {
        "0"
    } else if d == 1 {
        "1"
    } else if d == 2 {
        "2"
    } else if d == 3 {
        "3"
    } else if d == 4 {
        "4"
    } else if d == 5 {
        "5"
    } else if d == 6 {
        "6"
    } else if d == 7 {
        "7"
    } else if d == 8 {
        "8"
    } else {
        "9"
    };
    proof {
        assert(s@ =~= seq![digit_char(d as nat)]);
    }
    s
}

/// The digit characters of `rev` read back to front.
spec fn chars_of_rev(rev: Seq<u64>) -> Seq<char> {
    Seq::new(rev.len(), |i: int| digit_char(rev[rev.len() - 1 - i] as nat))
}

/// Renders `n` in decimal, matching `dec_digits_of`.
pub fn u64_to_string(n: u64) -> (s: String)
    ensures
        s@ == dec_digits_of(n as nat),
{
    if n == 0 {
        proof {
            reveal_strlit("0");
            assert("0"@ =~= dec_digits_of(0));
        }
        return "0".to_owned();
    }
    let mut rev: Vec<u64> = Vec::new();
    let mut m: u64 = n;
    loop
        invariant_except_break
            m > 0,
        invariant
            dec_digits_of(n as nat) =~= (if m > 0 {
                dec_digits_of(m as nat)
            } else {
                Seq::<char>::empty()
            }) + chars_of_rev(rev@),
            forall|j: int| 0 <= j < rev@.len() ==> #[trigger] rev@[j] < 10,
        ensures
            dec_digits_of(n as nat) =~= chars_of_rev(rev@),
            forall|j: int| 0 <= j < rev@.len() ==> #[trigger] rev@[j] < 10,
        decreases m,
    {
        let d: u64 = m % 10;
        let next: u64 = m / 10;
        let ghost prev_rev = rev@;
        rev.push(d);
        proof {
            assert(chars_of_rev(rev@) =~= seq![digit_char(d as nat)] + chars_of_rev(prev_rev));
            if m < 10 {
                assert(dec_digits_of(m as nat) == seq![digit_char(m as nat)]);
            } else {
                assert(dec_digits_of(m as nat) == dec_digits_of((m as nat) / 10).push(
                    digit_char((m as nat) % 10),
                ));
                assert(dec_digits_of(m as nat) + chars_of_rev(prev_rev) =~= dec_digits_of(
                    next as nat,
                ) + chars_of_rev(rev@));
            }
        }
        m = next;
        if m == 0 {
            break ;
        }
    }
    let mut s = String::new();
    let mut i: usize = rev.len();
    while i > 0
        invariant
            i <= rev@.len(),
            s@ =~= chars_of_rev(rev@).take(rev@.len() - i),
            forall|j: int| 0 <= j < rev@.len() ==> #[trigger] rev@[j] < 10,
        decreases i,
    {
        i = i - 1;
        s.append(digit_str(rev[i]));
        proof {
            assert(s@ =~= chars_of_rev(rev@).take(rev@.len() - i));
        }
    }
    proof {
        assert(chars_of_rev(rev@).take(rev@.len() as int) =~= chars_of_rev(rev@));
    }
    s
}

/// Character-by-character string equality, reflected into the views.
pub fn str_eq(a: &str, b: &str) -> (r: bool)
    ensures
        r == (a@ == b@),
{
    let alen = a.unicode_len();
    let blen = b.unicode_len();
    if alen != blen {
        return false;
    }
    let mut i: usize = 0;
    while i < alen
        invariant
            alen == a@.len(),
            alen == b@.len(),
            i <= alen,
            forall|j: int| 0 <= j < i ==> a@[j] == b@[j],
        decreases alen - i,
    {
        if a.get_char(i) != b.get_char(i) {
            return false;
        }
        i = i + 1;
    }
    proof {
        assert(a@ =~= b@);
    }
    true
}

/// The words of `s`: maximal runs of non-whitespace characters, in order.
/// Splitting is defined one character at a time from the right, which makes
/// it line up with a scan from the left: a whitespace character closes the
/// current word, a non-whitespace character either extends the last word or
/// opens a new one.
pub open spec fn spec_tokens(s: Seq<char>) -> Seq<Seq<char>>
    decreases s.len(),
{
    if s.len() == 0 {
        Seq::empty()
    } else {
        let rest = spec_tokens(s.drop_last());
        let c = s.last();
        if is_ascii_space(c) {
            rest
        } else if s.len() >= 2 && !is_ascii_space(s[s.len() - 2]) {
            rest.update(rest.len() - 1, rest.last().push(c))
        } else {
            rest.push(seq![c])
        }
    }
}

/// Whether no character of `s` is ASCII whitespace.
pub open spec fn no_space(s: Seq<char>) -> bool {
    forall|i: int| 0 <= i < s.len() ==> !is_ascii_space(#[trigger] s[i])
}

/// A nonempty whitespace-free string is one single word.
pub proof fn lemma_tokens_single_word(w: Seq<char>)
    requires
        w.len() > 0,
        no_space(w),
    ensures
        spec_tokens(w) =~~= seq![w],
    decreases w.len(),
{
    if w.len() == 1 {
        assert(spec_tokens(w.drop_last()) =~~= Seq::<Seq<char>>::empty());
        assert(w =~= seq![w.last()]);
        assert(spec_tokens(w) =~~= Seq::<Seq<char>>::empty().push(seq![w.last()]));
    } else {
        lemma_tokens_single_word(w.drop_last());
        assert(spec_tokens(w) =~~= seq![w.drop_last().push(w.last())]);
        assert(w.drop_last().push(w.last()) =~= w);
    }
}

/// Appending a space and then a word appends exactly one token.
pub proof fn lemma_tokens_append_word(s: Seq<char>, w: Seq<char>)
    requires
        w.len() > 0,
        no_space(w),
    ensures
        spec_tokens(s + " "@ + w) =~~= spec_tokens(s).push(w),
    decreases w.len(),
{
    reveal_strlit(" ");
    let t = s + " "@ + w;
    if w.len() == 1 {
        assert(t.drop_last() =~= s + " "@);
        assert((s + " "@).drop_last() =~= s);
        assert(spec_tokens(s + " "@) =~~= spec_tokens(s));
        assert(t[t.len() - 2] == ' ');
        assert(spec_tokens(t) =~~= spec_tokens(s).push(seq![w.last()]));
        assert(seq![w.last()] =~= w);
    } else {
        lemma_tokens_append_word(s, w.drop_last());
        assert(t.drop_last() =~= s + " "@ + w.drop_last());
        assert(t[t.len() - 2] == w[w.len() - 2]);
        assert(!is_ascii_space(t[t.len() - 2]));
        let rest = spec_tokens(s).push(w.drop_last());
        assert(spec_tokens(t) =~~= rest.update(rest.len() - 1, rest.last().push(w.last())));
        assert(w.drop_last().push(w.last()) =~= w);
        assert(rest.update(rest.len() - 1, rest.last().push(w.last())) =~~= spec_tokens(s).push(
            w,
        ));
    }
}

/// Splits `s` into its whitespace-separated words, matching `spec_tokens`.
pub fn tokenize(s: &str) -> (toks: Vec<String>)
    ensures
        toks.deep_view() =~~= spec_tokens(s@),
{
    let len = s.unicode_len();
    let mut toks: Vec<String> = Vec::new();
    let mut i: usize = 0;
    while i < len
        invariant
            i <= len,
            len == s@.len(),
            toks.deep_view() =~~= spec_tokens(s@.take(i as int)),
            i == 0 || i == len || is_ascii_space(s@[i - 1]) || (i < len && is_ascii_space(
                s@[i as int],
            )),
        decreases len - i,
    {
        let c = s.get_char(i);
        if is_space_char(c) {
            proof {
                assert(s@.take(i + 1 as int).drop_last() =~= s@.take(i as int));
            }
            i = i + 1;
        } else {
            let start = i;
            let ghost base = toks.deep_view();
            proof {
                assert(s@.take(i + 1 as int).drop_last() =~= s@.take(i as int));
                if i > 0 {
                    assert(is_ascii_space(s@[i - 1]));
                }
                assert(s@.take(i + 1 as int) =~= s@.take(i as int).push(s@[i as int]));
                assert(spec_tokens(s@.take(i + 1 as int)) =~~= base.push(
                    s@.subrange(start as int, i + 1 as int),
                ));
            }
            i = i + 1;
            while i < len && !is_space_char(s.get_char(i))
                invariant
                    start < i <= len,
                    len == s@.len(),
                    toks.deep_view() =~~= base,
                    base =~~= spec_tokens(s@.take(start as int)),
                    spec_tokens(s@.take(i as int)) =~~= base.push(
                        s@.subrange(start as int, i as int),
                    ),
                    forall|k: int| start <= k < i ==> !is_ascii_space(#[trigger] s@[k]),
                decreases len - i,
            {
                proof {
                    assert(s@.take(i + 1 as int).drop_last() =~= s@.take(i as int));
                    let prev = base.push(s@.subrange(start as int, i as int));
                    assert(spec_tokens(s@.take(i + 1 as int)) =~~= prev.update(
                        prev.len() - 1,
                        prev.last().push(s@[i as int]),
                    ));
                    assert(s@.subrange(start as int, i as int).push(s@[i as int]) =~= s@.subrange(
                        start as int,
                        i + 1 as int,
                    ));
                    assert(prev.update(prev.len() - 1, prev.last().push(s@[i as int])) =~~= base
                        .push(s@.subrange(start as int, i + 1 as int)));
                }
                i = i + 1;
            }
            let word = s.substring_char(start, i);
            toks.push(word.to_owned());
            proof {
                assert(toks.deep_view() =~~= base.push(s@.subrange(start as int, i as int)));
            }
        }
    }
    proof {
        assert(s@.take(len as int) =~= s@);
    }
    toks
}

/// Executable ASCII-whitespace test, matching `is_ascii_space`.
pub fn is_space_char(c: char) -> (r: bool)
    ensures
        r == is_ascii_space(c),
{
    c == ' ' || c == '\t' || c == '\n' || c == '\u{000C}' || c == '\r'
}

/// Executable ASCII-digit test, matching `is_ascii_digit`.
pub fn is_digit_char(c: char) -> (r: bool)
    ensures
        r == is_ascii_digit(c),
{
    c >= '0' && c <= '9'
}

/// Relies on `String::from_utf8`: the bytes come back as a string exactly
/// when they are valid UTF-8, decoded scalar by scalar; invalid bytes are
/// reported, not replaced.
#[verifier::external_body]
pub(crate) fn bytes_to_string(v: Vec<u8>) -> (r: Option<String>)
    ensures
        match r {
            Some(s) => vstd::utf8::valid_utf8(v@) && s@ == vstd::utf8::decode_utf8(v@),
            None => !vstd::utf8::valid_utf8(v@),
        },
{
    match String::from_utf8(v) {
        Ok(s) => Some(s),
        Err(_) => None,
    }
}

} // verus!
