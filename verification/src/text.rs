//! Building texts: decimal numbers and lists joined by a separator.

use crate::views::views;
use vstd::prelude::*;

verus! {

/// The decimal digit for a number below ten.
pub open spec fn digit_text(d: nat) -> Seq<char> {
    if d == 0 {
        "0"@
    } else if d == 1 {
        "1"@
    } else if d == 2 {
        "2"@
    } else if d == 3 {
        "3"@
    } else if d == 4 {
        "4"@
    } else if d == 5 {
        "5"@
    } else if d == 6 {
        "6"@
    } else if d == 7 {
        "7"@
    } else if d == 8 {
        "8"@
    } else {
        "9"@
    }
}

/// A number in decimal, without leading zeros.
pub open spec fn decimal_text(n: nat) -> Seq<char>
    decreases n,
{
    if n < 10 {
        digit_text(n)
    } else {
        decimal_text(n / 10) + digit_text(n % 10)
    }
}

/// A number in decimal, with leading zeros up to the given number of digits.
pub open spec fn padded_text(n: nat, width: nat) -> Seq<char>
    decreases width,
{
    if width <= 1 {
        decimal_text(n)
    } else {
        padded_text(n / 10, (width - 1) as nat) + digit_text(n % 10)
    }
}

/// The parts, with the separator between each two of them.
pub open spec fn joined_text(parts: Seq<Seq<char>>, separator: Seq<char>) -> Seq<char>
    decreases parts.len(),
{
    if parts.len() == 0 {
        Seq::empty()
    } else if parts.len() == 1 {
        parts[0]
    } else {
        joined_text(parts.drop_last(), separator) + separator + parts.last()
    }
}

fn digit(d: u64) -> (result: &'static str)
    requires
        d < 10,
    ensures
        result@ == digit_text(d as nat),
{
    if d == 0 {
        "0"
    } else if d == 1 {
        "1"
    } else if d == 2 {
        "2"
    } else if d == 3 {
        "3"
    } else if d == 4 {
        "4"
    } else if d == 5 {
        "5"
    } else if d == 6 {
        "6"
    } else if d == 7 {
        "7"
    } else if d == 8 {
        "8"
    } else {
        "9"
    }
}

/// The number in decimal.
pub fn decimal(n: u64) -> (result: String)
    ensures
        result@ == decimal_text(n as nat),
    decreases n,
{
    if n < 10 {
        digit(n).to_owned()
    } else {
        let mut text = decimal(n / 10);
        text.append(digit(n % 10));
        text
    }
}

/// The parts, joined by the separator.
pub fn joined(parts: &Vec<String>, separator: &str) -> (result: String)
    ensures
        result@ == joined_text(views(parts@), separator@),
{
    let mut text = String::new();
    let mut i: usize = 0;
    while i < parts.len()
        invariant
            i <= parts.len(),
            text@ == joined_text(views(parts@).take(i as int), separator@),
        decreases parts.len() - i,
    {
        let ghost done = views(parts@).take(i as int);
        assert(views(parts@).take(i + 1) =~= done.push(parts[i as int]@));
        assert(done.push(parts[i as int]@).drop_last() =~= done);
        if i > 0 {
            text.append(separator);
        }
        text.append(parts[i].as_str());
        assert(i == 0 ==> text@ =~= parts[0]@);
        i += 1;
    }
    assert(views(parts@).take(parts.len() as int) =~= views(parts@));
    text
}

/// The number that a text of decimal digits stands for.
pub open spec fn number_of(text: Seq<char>) -> int
    decreases text.len(),
{
    if text.len() == 0 {
        0
    } else {
        10 * number_of(text.drop_last()) + (text.last() as int - '0' as int)
    }
}

/// Whether the text is made of decimal digits alone.
pub open spec fn all_digits(text: Seq<char>) -> bool {
    forall|i: int| 0 <= i < text.len() ==> '0' as int <= #[trigger] text[i] as int <= '9' as int
}

proof fn lemma_digit(d: nat)
    requires
        d < 10,
    ensures
        digit_text(d).len() == 1,
        digit_text(d)[0] as int == '0' as int + d,
{
    reveal_strlit("0");
    reveal_strlit("1");
    reveal_strlit("2");
    reveal_strlit("3");
    reveal_strlit("4");
    reveal_strlit("5");
    reveal_strlit("6");
    reveal_strlit("7");
    reveal_strlit("8");
    reveal_strlit("9");
}

proof fn lemma_more_digits(text: Seq<char>, d: nat)
    requires
        d < 10,
        all_digits(text),
    ensures
        number_of(text + digit_text(d)) == 10 * number_of(text) + d,
        all_digits(text + digit_text(d)),
        (text + digit_text(d)).len() == text.len() + 1,
        text.len() > 0 ==> (text + digit_text(d))[0] == text[0],
{
    lemma_digit(d);
    let more = text + digit_text(d);
    assert(more.drop_last() =~= text);
    assert(more.last() == digit_text(d)[0]);
    assert forall|i: int| 0 <= i < more.len() implies '0' as int <= #[trigger] more[i] as int
        <= '9' as int by {
        if i < text.len() {
            assert(more[i] == text[i]);
        }
    }
}

/// A number in decimal reads back as that number. It is made of digits, and only zero starts
/// with a zero.
pub proof fn law_decimal_reads_back(n: nat)
    ensures
        number_of(decimal_text(n)) == n,
        all_digits(decimal_text(n)),
        decimal_text(n).len() >= 1,
        decimal_text(n)[0] == '0' ==> n == 0 && decimal_text(n).len() == 1,
    decreases n,
{
    if n < 10 {
        lemma_digit(n);
        assert(decimal_text(n).drop_last() =~= Seq::empty());
        assert(number_of(decimal_text(n).drop_last()) == 0);
    } else {
        law_decimal_reads_back(n / 10);
        lemma_more_digits(decimal_text(n / 10), n % 10);
    }
}

/// A number with leading zeros reads back as that number. It has at least as many digits as
/// were asked for, and no leading zero where it has more.
pub proof fn law_padded_reads_back(n: nat, width: nat)
    ensures
        number_of(padded_text(n, width)) == n,
        all_digits(padded_text(n, width)),
        padded_text(n, width).len() >= width,
        padded_text(n, width).len() >= 1,
        padded_text(n, width).len() > width && padded_text(n, width).len() > 1
            ==> padded_text(n, width)[0] != '0',
    decreases width,
{
    if width <= 1 {
        law_decimal_reads_back(n);
    } else {
        law_padded_reads_back(n / 10, (width - 1) as nat);
        lemma_more_digits(padded_text(n / 10, (width - 1) as nat), n % 10);
    }
}

/// Joining nothing gives an empty text, joining one part gives that part, and joining two lists
/// one after the other gives what each of them gives, with the separator in between.
pub proof fn law_joined_is_made_of_its_parts(
    first: Seq<Seq<char>>,
    second: Seq<Seq<char>>,
    part: Seq<char>,
    separator: Seq<char>,
)
    ensures
        joined_text(Seq::empty(), separator) == Seq::<char>::empty(),
        joined_text(seq![part], separator) == part,
        first.len() > 0 && second.len() > 0 ==> joined_text(first + second, separator)
            == joined_text(first, separator) + separator + joined_text(second, separator),
    decreases second.len(),
{
    if first.len() > 0 && second.len() > 0 {
        let all = first + second;
        let rest = second.drop_last();
        assert(all.last() == second.last());
        assert(all.drop_last() =~= first + rest);
        if rest.len() > 0 {
            law_joined_is_made_of_its_parts(first, rest, part, separator);
        } else {
            assert(first + rest =~= first);
            assert(second[0] == second.last());
        }
        assert(joined_text(all, separator) =~= joined_text(first, separator) + separator
            + joined_text(second, separator));
    }
}

/// Whether the part stands somewhere in the text.
pub open spec fn stands_in(part: Seq<char>, text: Seq<char>) -> bool {
    exists|before: Seq<char>, after: Seq<char>| #[trigger] (before + part + after) == text
}

/// Each part stands in the text that joins them.
pub proof fn law_each_part_is_joined(parts: Seq<Seq<char>>, separator: Seq<char>, i: int)
    requires
        0 <= i < parts.len(),
    ensures
        stands_in(parts[i], joined_text(parts, separator)),
    decreases parts.len(),
{
    let text = joined_text(parts, separator);
    let none = Seq::<char>::empty();
    if parts.len() == 1 {
        assert(none + parts[i] + none =~= text);
    } else if i == parts.len() - 1 {
        let before = joined_text(parts.drop_last(), separator) + separator;
        assert(before + parts[i] + none =~= text);
    } else {
        law_each_part_is_joined(parts.drop_last(), separator, i);
        let rest = joined_text(parts.drop_last(), separator);
        let (before, after) = choose|before: Seq<char>, after: Seq<char>| #[trigger]
            (before + parts.drop_last()[i] + after) == rest;
        assert(before + parts[i] + (after + separator + parts.last()) =~= text);
    }
}

/// What stands in a text stands in it also where something comes before it and after it.
pub proof fn lemma_stands_in(
    part: Seq<char>,
    middle: Seq<char>,
    before: Seq<char>,
    after: Seq<char>,
)
    requires
        stands_in(part, middle),
    ensures
        stands_in(part, before + middle + after),
        stands_in(part, before + middle),
        stands_in(part, middle + after),
{
    let (b, a) = choose|b: Seq<char>, a: Seq<char>| #[trigger] (b + part + a) == middle;
    assert((before + b) + part + (a + after) =~= before + middle + after);
    assert((before + b) + part + a =~= before + middle);
    assert(b + part + (a + after) =~= middle + after);
}

/// A text stands in itself.
pub proof fn lemma_stands_in_itself(text: Seq<char>)
    ensures
        stands_in(text, text),
{
    let none = Seq::<char>::empty();
    assert(none + text + none =~= text);
}

/// A number below a hundred, or below ten thousand, has no more than two, or four, digits.
pub proof fn lemma_padded_fits(n: nat, width: nat)
    requires
        width == 2 && n < 100 || width == 4 && n < 10_000,
    ensures
        padded_text(n, width).len() == width,
{
    reveal_with_fuel(padded_text, 5);
    lemma_digit(n % 10);
    lemma_digit((n / 10) % 10);
    lemma_digit((n / 100) % 10);
    if width == 2 {
        lemma_digit(n / 10);
    } else {
        assert((n / 10) / 10 == n / 100);
        assert((n / 100) / 10 == n / 1000);
        lemma_digit(n / 1000);
    }
}

} // verus!
