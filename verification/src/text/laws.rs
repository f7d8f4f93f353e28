//! What holds of texts that are searched, ordered, joined and printed.
use crate::text;
use vstd::prelude::*;
use vstd::utf8;

verus! {

// ----- searching -----

/// A text occurs in another iff the other is something, the text, and something
/// more.
pub proof fn law_occurrence_splits_the_text(part: Seq<char>, whole: Seq<char>)
    ensures
        text::occurs(part, whole) <==> exists|a: Seq<char>, b: Seq<char>| whole == #[trigger] (a
            + part + b),
{
    if text::occurs(part, whole) {
        let i = choose|i: int|
            0 <= i <= whole.len() - part.len() && #[trigger] whole.subrange(i, i + part.len())
                == part;
        let a = whole.subrange(0, i);
        let b = whole.subrange(i + part.len(), whole.len() as int);
        assert(whole =~= a + whole.subrange(i, i + part.len()) + b);
        assert(whole == a + part + b);
    }
    if exists|a: Seq<char>, b: Seq<char>| whole == #[trigger] (a + part + b) {
        let (a, b) = choose|a: Seq<char>, b: Seq<char>| whole == #[trigger] (a + part + b);
        let i = a.len() as int;
        assert(whole.subrange(i, i + part.len()) =~= part);
    }
}

// ----- the order of names -----

proof fn lemma_encode_concat(a: Seq<char>, b: Seq<char>)
    ensures
        utf8::encode_utf8(a + b) == utf8::encode_utf8(a) + utf8::encode_utf8(b),
    decreases a.len(),
{
    if a.len() == 0 {
        assert(a + b =~= b);
        assert(utf8::encode_utf8(a) + utf8::encode_utf8(b) =~= utf8::encode_utf8(b));
    } else {
        assert((a + b).drop_first() =~= a.drop_first() + b);
        assert((a + b)[0] == a[0]);
        lemma_encode_concat(a.drop_first(), b);
        assert(utf8::encode_utf8(a + b) =~= utf8::encode_utf8(a) + utf8::encode_utf8(b));
    }
}

proof fn lemma_encode_ascii(c: char, rest: Seq<char>)
    requires
        (c as u32) < 128,
    ensures
        utf8::encode_utf8(seq![c] + rest) == seq![(c as u32) as u8] + utf8::encode_utf8(rest),
{
    let u = c as u32;
    assert((seq![c] + rest).drop_first() =~= rest);
    assert((u & 0x7F) == u) by (bit_vector)
        requires
            u < 128,
    ;
    assert(utf8::encode_scalar(u) == seq![u as u8]);
}

/// A name comes before every longer one that it is the beginning of.
pub proof fn law_shorter_names_come_first(a: Seq<char>, c: char, more: Seq<char>)
    ensures
        text::before(a, a + seq![c] + more),
{
    let b = a + seq![c] + more;
    let x = utf8::encode_utf8(a);
    let y = utf8::encode_utf8(b);
    assert(b =~= a + (seq![c] + more));
    lemma_encode_concat(a, seq![c] + more);
    assert((seq![c] + more)[0] == c);
    assert(utf8::encode_utf8(seq![c] + more).len() > 0);
    assert(text::differ_at(x, y, x.len() as int));
}

/// Names that agree up to a place come in the order of their characters there.
pub proof fn law_first_difference_decides(
    same: Seq<char>,
    c: char,
    d: char,
    x: Seq<char>,
    y: Seq<char>,
)
    requires
        (c as u32) < (d as u32) < 128,
    ensures
        text::before(same + seq![c] + x, same + seq![d] + y),
        !text::before(same + seq![d] + y, same + seq![c] + x),
{
    let a = same + seq![c] + x;
    let b = same + seq![d] + y;
    assert(a =~= same + (seq![c] + x));
    assert(b =~= same + (seq![d] + y));
    lemma_encode_concat(same, seq![c] + x);
    lemma_encode_concat(same, seq![d] + y);
    lemma_encode_ascii(c, x);
    lemma_encode_ascii(d, y);
    let i = utf8::encode_utf8(same).len() as int;
    assert(text::differ_at(utf8::encode_utf8(a), utf8::encode_utf8(b), i));
    if text::before(b, a) {
        text::lemma_before_transitive(a, b, a);
        text::lemma_before_irreflexive(a);
    }
}

// ----- joining -----

/// Parts are joined with the separator between neighbours and nowhere else.
pub proof fn law_separator_stands_between(
    parts: Seq<Seq<char>>,
    last: Seq<char>,
    sep: Seq<char>,
)
    ensures
        text::joined(Seq::empty(), sep).len() == 0,
        text::joined(seq![last], sep) == last,
        parts.len() > 0 ==> text::joined(parts.push(last), sep) == text::joined(parts, sep) + sep
            + last,
{
    if parts.len() > 0 {
        assert(parts.push(last).drop_last() =~= parts);
    }
}

/// Two lists that are not empty are joined one after the other with the separator
/// between them.
pub proof fn law_joined_lists_are_joined(
    a: Seq<Seq<char>>,
    b: Seq<Seq<char>>,
    sep: Seq<char>,
)
    requires
        a.len() > 0,
        b.len() > 0,
    ensures
        text::joined(a + b, sep) == text::joined(a, sep) + sep + text::joined(b, sep),
    decreases b.len(),
{
    let less = b.drop_last();
    assert((a + b).drop_last() =~= a + less);
    if b.len() == 1 {
        assert(a + less =~= a);
        assert(b[0] == b.last());
    } else {
        law_joined_lists_are_joined(a, less, sep);
        let x = text::joined(a, sep);
        let y = text::joined(less, sep);
        assert((x + sep + y) + sep + b.last() =~= x + sep + (y + sep + b.last()));
    }
}

/// Every part is put between backquotes, in order.
pub proof fn law_quoted_parts(parts: Seq<Seq<char>>, i: int)
    ensures
        text::quoted(parts).len() == parts.len(),
        0 <= i < parts.len() ==> text::quoted(parts)[i] == seq!['`'] + parts[i] + seq!['`'],
{
    reveal_strlit("`");
    assert("`"@ =~= seq!['`']);
}

// ----- numbers -----

/// The number that a decimal digit stands for.
pub open spec fn digit_value(c: char) -> int {
    c as int - '0' as int
}

/// The number that a row of digits stands for.
pub open spec fn value(digits: Seq<char>) -> int
    decreases digits.len(),
{
    if digits.len() == 0 {
        0
    } else {
        10 * value(digits.drop_last()) + digit_value(digits.last())
    }
}

/// The text is made of decimal digits alone.
pub open spec fn all_digits(digits: Seq<char>) -> bool {
    forall|i: int| 0 <= i < digits.len() ==> '0' <= #[trigger] digits[i] <= '9'
}

/// A number is printed in decimal digits that stand for it, the first of which is
/// zero for the number zero alone.
pub proof fn law_digits_stand_for_the_number(n: nat)
    ensures
        value(text::decimal(n)) == n,
        all_digits(text::decimal(n)),
        text::decimal(n).len() > 0,
        n > 0 ==> text::decimal(n)[0] != '0',
    decreases n,
{
    if n < 10 {
        let s = text::decimal(n);
        assert(s =~= seq![text::digit(n)]);
        assert(s.drop_last() =~= Seq::<char>::empty());
        assert(value(s.drop_last()) == 0);
    } else {
        law_digits_stand_for_the_number(n / 10);
        let s = text::decimal(n);
        let less = text::decimal(n / 10);
        assert(s == less.push(text::digit(n % 10)));
        assert(s.drop_last() =~= less);
        assert(s[0] == less[0]);
        assert(digit_value(text::digit(n % 10)) == n % 10);
        assert forall|i: int| 0 <= i < s.len() implies '0' <= #[trigger] s[i] <= '9' by {
            if i < less.len() {
                assert(s[i] == less[i]);
            }
        }
    }
}

/// A negative number is printed as a minus sign and the number without it.
pub proof fn law_sign_comes_first(n: int)
    ensures
        n >= 0 ==> text::signed_decimal(n) == text::decimal(n as nat),
        n < 0 ==> text::signed_decimal(n) == seq!['-'] + text::decimal((-n) as nat),
{
}

/// A number with leading zeros has at least the wanted width, no more zeros than
/// that takes, and the digits of the number at its end.
pub proof fn law_zeros_fill_the_width(n: nat, width: nat)
    ensures
        ({
            let s = text::padded(n, width);
            let digits = text::decimal(n);
            let zeros = s.len() - digits.len();
            &&& s.len() == (if digits.len() > width {
                digits.len()
            } else {
                width
            })
            &&& s.skip(zeros) == digits
            &&& forall|i: int| 0 <= i < zeros ==> #[trigger] s[i] == '0'
        }),
{
    let s = text::padded(n, width);
    let digits = text::decimal(n);
    assert(s.skip(s.len() - digits.len()) =~= digits);
}

/// Names come in the order of the bytes of their encoding: one comes first where
/// it is a beginning of the other, or has the smaller byte at the first place
/// where the two differ.
pub proof fn law_order_is_that_of_the_bytes(a: Seq<char>, b: Seq<char>)
    ensures
        text::before(a, b) <==> {
            let x = utf8::encode_utf8(a);
            let y = utf8::encode_utf8(b);
            ||| x.len() < y.len() && x.is_prefix_of(y)
            ||| exists|i: int|
                0 <= i < x.len() && i < y.len() && x.take(i) == y.take(i) && #[trigger] x[i] < y[i]
        },
{
    let x = utf8::encode_utf8(a);
    let y = utf8::encode_utf8(b);
    if text::before(a, b) {
        let i = choose|i: int| #[trigger] text::differ_at(x, y, i);
        assert(x.take(i) =~= y.take(i));
        if i == x.len() {
            assert(x =~= y.subrange(0, x.len() as int));
        } else {
            assert(x[i] < y[i]);
        }
    }
    if x.len() < y.len() && x.is_prefix_of(y) {
        assert forall|j: int| 0 <= j < x.len() implies x[j] == y[j] by {
            assert(x[j] == y.subrange(0, x.len() as int)[j]);
        }
        assert(text::differ_at(x, y, x.len() as int));
    }
    if exists|i: int|
        0 <= i < x.len() && i < y.len() && x.take(i) == y.take(i) && #[trigger] x[i] < y[i] {
        let i = choose|i: int|
            0 <= i < x.len() && i < y.len() && x.take(i) == y.take(i) && #[trigger] x[i] < y[i];
        assert forall|j: int| 0 <= j < i implies x[j] == y[j] by {
            assert(x.take(i)[j] == y.take(i)[j]);
        }
        assert(text::differ_at(x, y, i));
    }
}

} // verus!
