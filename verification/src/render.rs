use vstd::prelude::*;
use vstd::string::StringExecFns;

use crate::errors::Errors;

verus! {

/// The character of the decimal digit `d`.
pub open spec fn digit_char(d: nat) -> char {
    (48 + d) as char
}

/// The decimal numeral of `n`, without leading zeros.
pub open spec fn decimal(n: nat) -> Seq<char>
    decreases n,
{
    if n < 10 {
        seq![digit_char(n)]
    } else {
        decimal(n / 10) + seq![digit_char(n % 10)]
    }
}

/// The texts of `items` joined by a comma and a space.
pub open spec fn joined(items: Seq<Seq<char>>) -> Seq<char>
    decreases items.len(),
{
    if items.len() == 0 {
        Seq::empty()
    } else if items.len() == 1 {
        items[0]
    } else {
        joined(items.drop_last()) + ", "@ + items.last()
    }
}

/// One line per text of `items`: its position in decimal, a colon and a
/// space, the text, and a line break.
pub open spec fn numbered_lines(items: Seq<Seq<char>>) -> Seq<char>
    decreases items.len(),
{
    if items.len() == 0 {
        Seq::empty()
    } else {
        numbered_lines(items.drop_last()) + decimal((items.len() - 1) as nat) + ": "@ + items.last()
            + "\n"@
    }
}

/// How a collection of already formatted errors is shown: numbered lines in
/// the alternate form, else the errors separated by commas.
pub open spec fn layout_of(items: Seq<Seq<char>>, alternate: bool) -> Seq<char> {
    if alternate {
        numbered_lines(items)
    } else {
        joined(items)
    }
}

/// The number that a run of decimal digits stands for, read in base 10.
pub open spec fn numeral_value(digits: Seq<char>) -> int
    decreases digits.len(),
{
    if digits.len() == 0 {
        0
    } else {
        numeral_value(digits.drop_last()) * 10 + (digits.last() as int - 48)
    }
}

/// Each digit below ten is shown by its own character, counting up from `'0'`.
pub proof fn law_digit_char_is_standard(d: nat)
    requires
        d < 10,
    ensures
        digit_char(d) as int == 48 + d,
        '0' <= digit_char(d) <= '9',
{
}

/// The numeral of `n` is a non-empty run of the characters `'0'` to `'9'`,
/// starts with `'0'` only for zero itself, and read back in base 10 is `n`.
pub proof fn law_decimal_reads_back(n: nat)
    ensures
        decimal(n).len() >= 1,
        forall|i: int| 0 <= i < decimal(n).len() ==> '0' <= #[trigger] decimal(n)[i] <= '9',
        decimal(n)[0] == '0' ==> n == 0,
        numeral_value(decimal(n)) == n,
    decreases n,
{
    if n < 10 {
        law_digit_char_is_standard(n);
        let s = decimal(n);
        assert(s.drop_last() =~= Seq::<char>::empty());
        assert(numeral_value(s.drop_last()) == 0);
        assert(numeral_value(s) == numeral_value(s.drop_last()) * 10 + (s.last() as int - 48));
    } else {
        let q = n / 10;
        let d = n % 10;
        law_decimal_reads_back(q);
        law_digit_char_is_standard(d);
        let s = decimal(n);
        assert(s == decimal(q) + seq![digit_char(d)]);
        assert(s.drop_last() =~= decimal(q));
        assert(s.last() == digit_char(d));
        assert(s[0] == decimal(q)[0]);
        assert forall|i: int| 0 <= i < s.len() implies '0' <= #[trigger] s[i] <= '9' by {
            if i < decimal(q).len() {
                assert(s[i] == decimal(q)[i]);
            }
        }
        assert(q * 10 + d == n);
        assert(numeral_value(s) == numeral_value(s.drop_last()) * 10 + (s.last() as int - 48));
        assert(numeral_value(s) == q * 10 + d);
    }
}

/// Shown plainly, a single error is shown as it is, and each further error
/// comes after those before it, separated from them by `", "`.
pub proof fn law_plain_layout_separates_by_commas(items: Seq<Seq<char>>, t: Seq<char>)
    ensures
        layout_of(Seq::empty(), false) == Seq::<char>::empty(),
        layout_of(seq![t], false) == t,
        items.len() > 0 ==> layout_of(items.push(t), false) == layout_of(items, false) + ", "@ + t,
{
    assert(items.push(t).drop_last() =~= items);
    assert(seq![t].len() == 1);
}

/// Shown in the alternate form, nothing is shown for no errors, and each
/// further error adds one line after those before it: its position in
/// decimal, `": "`, the error, and a line break.
pub proof fn law_alternate_layout_numbers_lines(items: Seq<Seq<char>>, t: Seq<char>)
    ensures
        layout_of(Seq::empty(), true) == Seq::<char>::empty(),
        layout_of(items.push(t), true) == layout_of(items, true) + decimal(items.len()) + ": "@ + t
            + "\n"@,
{
    assert(items.push(t).drop_last() =~= items);
}

/// The text of the decimal digit `d`.
fn digit_str(d: usize) -> (r: &'static str)
    requires
        d < 10,
    ensures
        r@ == seq![digit_char(d as nat)],
{
    proof {
        reveal_strlit("0");
        reveal_strlit("1");
        reveal_strlit("2");
        reveal_strlit("3");
        reveal_strlit("4");
        reveal_strlit("5");
        reveal_strlit("6");
        reveal_strlit("7");
        reveal_strlit("8");
        reveal_strlit("9");
    }
    match d {
        0 => "0",
        1 => "1",
        2 => "2",
        3 => "3",
        4 => "4",
        5 => "5",
        6 => "6",
        7 => "7",
        8 => "8",
        _ => "9",
    }
}

/// Appends the decimal numeral of `n` to `out`.
fn push_decimal(out: &mut String, n: usize)
    ensures
        final(out)@ == old(out)@ + decimal(n as nat),
    decreases n,
{
    if n < 10 {
        out.append(digit_str(n));
    } else {
        push_decimal(out, n / 10);
        out.append(digit_str(n % 10));
    }
}

impl Errors<String> {
    /// Lays out errors that are already formatted, as the collection is shown:
    /// in the alternate form one line per error, `"{position}: {error}\n"`;
    /// otherwise the errors separated by `", "`.
    pub fn layout(&self, alternate: bool) -> (r: String)
        ensures
            r@ == layout_of(self@.map_values(|s: String| s@), alternate),
    {
        let items = self.as_slice();
        let ghost texts = self@.map_values(|s: String| s@);
        let mut out = String::new();
        let mut i: usize = 0;
        while i < items.len()
            invariant
                0 <= i <= items@.len(),
                items@ == self@,
                texts == self@.map_values(|s: String| s@),
                out@ == layout_of(texts.take(i as int), alternate),
            decreases items@.len() - i,
        {
            proof {
                assert(texts.take(i + 1).drop_last() =~= texts.take(i as int));
                assert(texts.take(i + 1).last() == items@[i as int]@);
            }
            if alternate {
                push_decimal(&mut out, i);
                out.append(": ");
                out.append(items[i].as_str());
                out.append("\n");
            } else {
                if i > 0 {
                    out.append(", ");
                }
                out.append(items[i].as_str());
                proof {
                    if i == 0 {
                        assert(texts.take(1) =~= seq![texts[0]]);
                    }
                }
            }
            i = i + 1;
        }
        proof {
            assert(texts.take(items@.len() as int) =~= texts);
        }
        out
    }
}

} // verus!
