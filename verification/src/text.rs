//! Text as the rest of the library needs it: the order of keys, the search for
//! a marker, and numbers in decimal.
use vstd::prelude::*;
use vstd::string::*;

verus! {

/// The order of texts: by code point, a proper prefix before what extends it.
pub open spec fn text_less(a: Seq<char>, b: Seq<char>) -> bool
    decreases a.len(),
{
    if b.len() == 0 {
        false
    } else if a.len() == 0 {
        true
    } else if a[0] == b[0] {
        text_less(a.drop_first(), b.drop_first())
    } else {
        (a[0] as int) < (b[0] as int)
    }
}

/// `part` occurs somewhere in `whole`.
pub open spec fn text_contains(whole: Seq<char>, part: Seq<char>) -> bool {
    exists|i: int| text_occurs_at(whole, part, i)
}

/// `part` stands in `whole` from position `i` on.
pub open spec fn text_occurs_at(whole: Seq<char>, part: Seq<char>, i: int) -> bool {
    &&& 0 <= i
    &&& i + part.len() <= whole.len()
    &&& whole.subrange(i, i + part.len()) == part
}

/// The decimal digit `d`.
pub open spec fn digit(d: nat) -> Seq<char> {
    if d == 0 {
        "0"@
    } else if d == 1 {
        "1"@
    } else if d == 2 {
        "2"@
    } else if d == 3 {
        "3"@
    } else if d == 4 {
        "4"@
    } else if d == 5 {
        "5"@
    } else if d == 6 {
        "6"@
    } else if d == 7 {
        "7"@
    } else if d == 8 {
        "8"@
    } else {
        "9"@
    }
}

/// `n` in decimal, without leading zeros.
pub open spec fn decimal(n: nat) -> Seq<char>
    decreases n,
{
    if n < 10 {
        digit(n)
    } else {
        decimal(n / 10) + digit(n % 10)
    }
}

/// No text is less than itself.
pub proof fn lemma_text_less_irreflexive(a: Seq<char>)
    ensures
        !text_less(a, a),
    decreases a.len(),
{
    if a.len() > 0 {
        lemma_text_less_irreflexive(a.drop_first());
    }
}

/// The order of texts is transitive.
pub proof fn lemma_text_less_transitive(a: Seq<char>, b: Seq<char>, c: Seq<char>)
    requires
        text_less(a, b),
        text_less(b, c),
    ensures
        text_less(a, c),
    decreases a.len(),
{
    if a.len() > 0 && a[0] == b[0] && b[0] == c[0] {
        lemma_text_less_transitive(a.drop_first(), b.drop_first(), c.drop_first());
    }
}

/// Of two different texts one is less than the other.
pub proof fn lemma_text_less_total(a: Seq<char>, b: Seq<char>)
    ensures
        a == b || text_less(a, b) || text_less(b, a),
    decreases a.len(),
{
    if a.len() == 0 && b.len() == 0 {
        assert(a =~= b);
    } else if a.len() > 0 && b.len() > 0 && a[0] == b[0] {
        lemma_text_less_total(a.drop_first(), b.drop_first());
        if a.drop_first() == b.drop_first() {
            assert(a =~= seq![a[0]] + a.drop_first());
            assert(b =~= seq![b[0]] + b.drop_first());
        }
    }
}

/// The characters of `text`.
pub fn characters(text: &str) -> (result: Vec<char>)
    ensures
        result@ == text@,
{
    let mut result: Vec<char> = Vec::new();
    for c in it: text.chars()
        invariant
            it.seq() == text@,
            result@ == it.seq().take(it.index() as int),
    {
        proof {
            assert(it.seq().take(it.index() as int).push(c) =~= it.seq().take(it.index() + 1));
        }
        result.push(c);
    }
    assert(result@ =~= text@);
    result
}

/// Whether `a` comes before `b`.
pub fn is_text_less(a: &str, b: &str) -> (result: bool)
    ensures
        result == text_less(a@, b@),
{
    let xs = characters(a);
    let ys = characters(b);
    let mut i: usize = 0;
    assert(a@.skip(0) =~= a@);
    assert(b@.skip(0) =~= b@);
    while i < xs.len() && i < ys.len() && xs[i] == ys[i]
        invariant
            xs@ == a@,
            ys@ == b@,
            i <= xs.len(),
            i <= ys.len(),
            text_less(a@, b@) == text_less(a@.skip(i as int), b@.skip(i as int)),
        decreases xs.len() - i,
    {
        assert(a@.skip(i as int).drop_first() =~= a@.skip(i + 1));
        assert(b@.skip(i as int).drop_first() =~= b@.skip(i + 1));
        i = i + 1;
    }
    if i == ys.len() {
        false
    } else if i == xs.len() {
        true
    } else {
        let x: char = xs[i];
        let y: char = ys[i];
        x < y
    }
}

/// Whether `part` occurs in `whole`.
pub fn contains_text(whole: &str, part: &str) -> (result: bool)
    ensures
        result == text_contains(whole@, part@),
{
    let xs = characters(whole);
    let ys = characters(part);
    if ys.len() > xs.len() {
        return false;
    }
    let last: usize = xs.len() - ys.len();
    let mut i: usize = 0;
    while i <= last
        invariant
            xs@ == whole@,
            ys@ == part@,
            last == xs.len() - ys.len(),
            i <= last + 1,
            forall|k: int| 0 <= k < i ==> !text_occurs_at(whole@, part@, k),
        decreases last + 1 - i,
    {
        let mut j: usize = 0;
        while j < ys.len() && xs[i + j] == ys[j]
            invariant
                xs@ == whole@,
                ys@ == part@,
                i + ys.len() <= xs.len(),
                j <= ys.len(),
                forall|k: int| 0 <= k < j ==> xs@[i + k] == ys@[k],
            decreases ys.len() - j,
        {
            j = j + 1;
        }
        if j == ys.len() {
            assert(whole@.subrange(i as int, i + part@.len()) =~= part@);
            assert(text_occurs_at(whole@, part@, i as int));
            return true;
        }
        assert(whole@.subrange(i as int, i + part@.len())[j as int] == xs@[i + j]);
        if i == last {
            return false;
        }
        i = i + 1;
    }
    false
}

/// The text of one decimal digit.
fn digit_text(d: u128) -> (result: &'static str)
    requires
        d < 10,
    ensures
        result@ == digit(d as nat),
{
    if d == 0 {
        "0"
    } else if d == 1 {
        "1"
    } else if d == 2 {
        "2"
    } else if d == 3 {
        "3"
    } else if d == 4 {
        "4"
    } else if d == 5 {
        "5"
    } else if d == 6 {
        "6"
    } else if d == 7 {
        "7"
    } else if d == 8 {
        "8"
    } else {
        "9"
    }
}

/// `n` in decimal.
pub fn decimal_text(n: u128) -> (result: String)
    ensures
        result@ == decimal(n as nat),
    decreases n,
{
    if n < 10 {
        digit_text(n).to_owned()
    } else {
        let mut result = decimal_text(n / 10);
        result.append(digit_text(n % 10));
        result
    }
}

/// The number that decimal digits stand for.
pub open spec fn digits_value(text: Seq<char>) -> int
    decreases text.len(),
{
    if text.len() == 0 {
        0
    } else {
        10 * digits_value(text.drop_last()) + (text.last() as int - '0' as int)
    }
}

/// A digit is one character, the one at its place behind `0`.
proof fn lemma_digit(d: nat)
    requires
        d < 10,
    ensures
        digit(d).len() == 1,
        digit(d)[0] as int == '0' as int + d,
{
    reveal_strlit("0");
    reveal_strlit("1");
    reveal_strlit("2");
    reveal_strlit("3");
    reveal_strlit("4");
    reveal_strlit("5");
    reveal_strlit("6");
    reveal_strlit("7");
    reveal_strlit("8");
    reveal_strlit("9");
}

/// A number in decimal is made of digits, begins with `0` only if it is 0, and
/// stands for that number.
pub proof fn law_decimal(n: nat)
    ensures
        decimal(n).len() > 0,
        forall|i: int|
            0 <= i < decimal(n).len() ==> '0' as int <= (#[trigger] decimal(n)[i]) as int <= '9' as int,
        n > 0 ==> decimal(n)[0] != '0',
        n == 0 ==> decimal(n) == seq!['0'],
        digits_value(decimal(n)) == n,
    decreases n,
{
    lemma_digit(n % 10);
    if n < 10 {
        assert(digit(n).drop_last() =~= Seq::empty());
        assert(digits_value(digit(n).drop_last()) == 0);
        if n == 0 {
            assert(digit(0) =~= seq!['0']);
        }
    } else {
        law_decimal(n / 10);
        let text = decimal(n);
        assert(text.drop_last() =~= decimal(n / 10));
        assert(text.last() == digit(n % 10)[0]);
        assert forall|i: int| 0 <= i < text.len() implies '0' as int <= (
        #[trigger] text[i]) as int <= '9' as int by {
            if i < text.len() - 1 {
                assert(text[i] == decimal(n / 10)[i]);
            }
        }
        assert(text[0] == decimal(n / 10)[0]);
    }
}

/// Up to position `p` both texts are the same, and there the first ends and the
/// other does not, or has the lesser character.
spec fn falls_behind_at(a: Seq<char>, b: Seq<char>, p: int) -> bool {
    &&& 0 <= p < b.len()
    &&& p <= a.len()
    &&& forall|k: int| 0 <= k < p ==> a[k] == #[trigger] b[k]
    &&& p == a.len() || (a[p] as int) < (b[p] as int)
}

/// The first text comes before the other exactly if it falls behind somewhere.
proof fn lemma_text_less(a: Seq<char>, b: Seq<char>)
    ensures
        text_less(a, b) <==> exists|p: int| falls_behind_at(a, b, p),
    decreases a.len(),
{
    if a.len() > 0 && b.len() > 0 && a[0] == b[0] {
        let c = a.drop_first();
        let d = b.drop_first();
        lemma_text_less(c, d);
        if text_less(a, b) {
            let p = choose|p: int| falls_behind_at(c, d, p);
            assert forall|k: int| 0 <= k < p + 1 implies a[k] == #[trigger] b[k] by {
                if k > 0 {
                    assert(c[k - 1] == d[k - 1]);
                }
            }
            assert(falls_behind_at(a, b, p + 1));
        }
        if exists|p: int| falls_behind_at(a, b, p) {
            let p = choose|p: int| falls_behind_at(a, b, p);
            assert forall|k: int| 0 <= k < p - 1 implies c[k] == #[trigger] d[k] by {
                assert(a[k + 1] == b[k + 1]);
            }
            assert(falls_behind_at(c, d, p - 1));
        }
    } else if b.len() > 0 {
        if text_less(a, b) {
            assert(falls_behind_at(a, b, 0));
        }
        if exists|p: int| falls_behind_at(a, b, p) {
            let p = choose|p: int| falls_behind_at(a, b, p);
            if p > 0 {
                assert(a[0] == b[0]);
            }
        }
    }
}

/// One text comes before another exactly if both are the same up to a position
/// at which the first ends and the other does not, or has the lesser character.
pub proof fn law_text_less(a: Seq<char>, b: Seq<char>)
    ensures
        text_less(a, b) <==> exists|p: int|
            0 <= p < b.len() && p <= a.len() && #[trigger] a.take(p) == b.take(p) && (p == a.len()
                || (a[p] as int) < (b[p] as int)),
{
    lemma_text_less(a, b);
    if text_less(a, b) {
        let p = choose|p: int| falls_behind_at(a, b, p);
        assert(a.take(p) =~= b.take(p));
    }
    if exists|p: int|
        0 <= p < b.len() && p <= a.len() && #[trigger] a.take(p) == b.take(p) && (p == a.len() || (
        a[p] as int) < (b[p] as int)) {
        let p = choose|p: int|
            0 <= p < b.len() && p <= a.len() && #[trigger] a.take(p) == b.take(p) && (p == a.len()
                || (a[p] as int) < (b[p] as int));
        assert forall|k: int| 0 <= k < p implies a[k] == #[trigger] b[k] by {
            assert(a.take(p)[k] == b.take(p)[k]);
        }
        assert(falls_behind_at(a, b, p));
    }
}

/// A text holds another exactly if the other's characters stand in it, one after
/// the other.
pub proof fn law_text_contains(whole: Seq<char>, part: Seq<char>)
    ensures
        text_contains(whole, part) <==> exists|i: int|
            0 <= i <= whole.len() - part.len() && #[trigger] whole.subrange(i, i + part.len())
                =~= part,
{
    if text_contains(whole, part) {
        let i = choose|i: int| text_occurs_at(whole, part, i);
        assert(whole.subrange(i, i + part.len()) =~= part);
    }
    if exists|i: int|
        0 <= i <= whole.len() - part.len() && #[trigger] whole.subrange(i, i + part.len())
            =~= part {
        let i = choose|i: int|
            0 <= i <= whole.len() - part.len() && #[trigger] whole.subrange(i, i + part.len())
                =~= part;
        assert(text_occurs_at(whole, part, i));
    }
}

} // verus!
