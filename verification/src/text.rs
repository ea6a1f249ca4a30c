//! Text that the trace shows: decimal numbers and joined lists.
use vstd::prelude::*;
use vstd::string::*;

verus! {

/// The decimal digit for `d`.
pub open spec fn digit(d: nat) -> char {
    ('0' as u32 + d) as char
}

/// `n` in decimal, without leading zeros.
pub open spec fn decimal(n: nat) -> Seq<char>
    decreases n,
{
    if n < 10 {
        seq![digit(n)]
    } else {
        decimal(n / 10).push(digit(n % 10))
    }
}

/// `n` in decimal, with a leading `-` where it is negative.
pub open spec fn signed_decimal(n: int) -> Seq<char> {
    if n < 0 {
        "-"@ + decimal((-n) as nat)
    } else {
        decimal(n as nat)
    }
}

/// The text of one decimal digit.
fn digit_text(d: u64) -> (text: &'static str)
    requires
        d < 10,
    ensures
        text@ == seq![digit(d as nat)],
{
    proof {
        reveal_strlit("0");
        reveal_strlit("1");
        reveal_strlit("2");
        reveal_strlit("3");
        reveal_strlit("4");
        reveal_strlit("5");
        reveal_strlit("6");
        reveal_strlit("7");
        reveal_strlit("8");
        reveal_strlit("9");
    }
    match d {
        0 => "0",
        1 => "1",
        2 => "2",
        3 => "3",
        4 => "4",
        5 => "5",
        6 => "6",
        7 => "7",
        8 => "8",
        _ => "9",
    }
}

/// Appends `n` in decimal.
pub fn append_decimal(text: &mut String, n: u64)
    ensures
        final(text)@ == old(text)@ + decimal(n as nat),
    decreases n,
{
    if n < 10 {
        text.append(digit_text(n));
    } else {
        append_decimal(text, n / 10);
        text.append(digit_text(n % 10));
        assert(text@ =~= old(text)@ + decimal(n as nat));
    }
}

/// Appends `n` in decimal, with its sign.
pub fn append_signed(text: &mut String, n: i32)
    ensures
        final(text)@ == old(text)@ + signed_decimal(n as int),
{
    if n < 0 {
        text.append("-");
        append_decimal(text, (-(n as i64)) as u64);
        assert(text@ =~= old(text)@ + signed_decimal(n as int));
    } else {
        append_decimal(text, n as u64);
    }
}

/// `parts` one after the other, with `sep` between neighbours.
pub open spec fn join(parts: Seq<Seq<char>>, sep: Seq<char>) -> Seq<char>
    decreases parts.len(),
{
    if parts.len() == 0 {
        Seq::empty()
    } else if parts.len() == 1 {
        parts[0]
    } else {
        join(parts.drop_last(), sep) + sep + parts.last()
    }
}

/// The views of a list of texts.
pub open spec fn texts(list: Seq<String>) -> Seq<Seq<char>> {
    list.map_values(|text: String| text@)
}

/// The texts one after the other, with `sep` between neighbours.
pub fn join_texts(list: &Vec<String>, sep: &str) -> (joined: String)
    ensures
        joined@ == join(texts(list@), sep@),
{
    let mut joined = String::new();
    let mut i: usize = 0;
    while i < list.len()
        invariant
            i <= list.len(),
            joined@ == join(texts(list@).take(i as int), sep@),
        decreases list.len() - i,
    {
        assert(texts(list@).take(i + 1).drop_last() =~= texts(list@).take(i as int));
        if i > 0 {
            joined.append(sep);
        }
        joined.append(list[i].as_str());
        i += 1;
        assert(joined@ =~= join(texts(list@).take(i as int), sep@));
    }
    assert(texts(list@).take(i as int) =~= texts(list@));
    joined
}

/// Whether the two texts are the same.
pub fn same(a: &String, b: &str) -> (r: bool)
    ensures
        r == (a@ == b@),
{
    a.eq(&b.to_owned())
}

/// Numbers that differ have different texts.
pub proof fn law_decimal_tells_numbers_apart(a: nat, b: nat)
    ensures
        decimal(a) == decimal(b) <==> a == b,
    decreases a,
{
    if decimal(a) == decimal(b) {
        lemma_decimal_long(a);
        lemma_decimal_long(b);
        assert(decimal(a).last() == digit(a % 10));
        assert(decimal(b).last() == digit(b % 10));
        if a >= 10 {
            assert(decimal(a).drop_last() =~= decimal(a / 10));
            assert(decimal(b).drop_last() =~= decimal(b / 10));
            law_decimal_tells_numbers_apart(a / 10, b / 10);
        }
    }
}

proof fn lemma_decimal_long(n: nat)
    ensures
        decimal(n).len() >= 1,
        n >= 10 ==> decimal(n).len() >= 2,
    decreases n,
{
    if n >= 10 {
        lemma_decimal_long(n / 10);
    }
}

/// The number that a text of decimal digits stands for.
pub open spec fn reading(text: Seq<char>) -> int
    decreases text.len(),
{
    if text.len() == 0 {
        0
    } else {
        reading(text.drop_last()) * 10 + (text.last() as int - '0' as int)
    }
}

/// The decimal text of a number is made of digits, does not begin with a zero unless it is one,
/// and reads back as the number.
pub proof fn law_decimal_reads_back(n: nat)
    ensures
        decimal(n).len() >= 1,
        forall|i: int| 0 <= i < decimal(n).len() ==> '0' <= #[trigger] decimal(n)[i] <= '9',
        decimal(n)[0] == '0' ==> n == 0,
        n == 0 ==> decimal(n) == seq!['0'],
        reading(decimal(n)) == n,
    decreases n,
{
    if n >= 10 {
        law_decimal_reads_back(n / 10);
        assert(decimal(n).drop_last() =~= decimal(n / 10));
        assert forall|i: int| 0 <= i < decimal(n).len() implies '0' <= #[trigger] decimal(n)[i]
            <= '9' by {
            if i < decimal(n / 10).len() {
                assert(decimal(n)[i] == decimal(n / 10)[i]);
            }
        }
        assert(decimal(n)[0] == decimal(n / 10)[0]);
    } else {
        assert(decimal(n).drop_last() =~= Seq::<char>::empty());
        assert(reading(decimal(n).drop_last()) == 0);
    }
}

/// A negative number has a minus before the digits of its size, and no other number has one.
pub proof fn law_sign_comes_first(n: int)
    ensures
        (signed_decimal(n)[0] == '-') == (n < 0),
        n < 0 ==> reading(signed_decimal(n).drop_first()) == -n,
        n >= 0 ==> reading(signed_decimal(n)) == n,
{
    reveal_strlit("-");
    if n < 0 {
        law_decimal_reads_back((-n) as nat);
        assert(signed_decimal(n).drop_first() =~= decimal((-n) as nat));
    } else {
        law_decimal_reads_back(n as nat);
    }
}

/// One text is joined as it is, and two lists are joined with one separator between them.
pub proof fn law_join_puts_one_separator_between(
    parts: Seq<Seq<char>>,
    more: Seq<Seq<char>>,
    sep: Seq<char>,
)
    ensures
        parts.len() == 0 ==> join(parts, sep) == Seq::<char>::empty(),
        parts.len() == 1 ==> join(parts, sep) == parts[0],
        parts.len() > 0 && more.len() > 0 ==> join(parts + more, sep) == join(parts, sep) + sep
            + join(more, sep),
    decreases more.len(),
{
    if parts.len() > 0 && more.len() > 0 {
        let all = parts + more;
        assert(all.drop_last() =~= parts + more.drop_last());
        if more.len() > 1 {
            law_join_puts_one_separator_between(parts, more.drop_last(), sep);
        } else {
            assert(all.drop_last() =~= parts);
        }
        assert(join(all, sep) =~= join(parts, sep) + sep + join(more, sep));
    }
}

} // verus!
