use vstd::prelude::*;

verus! {

/// `n` space characters.
pub open spec fn spaces(n: nat) -> Seq<char> {
    Seq::new(n, |_i: int| ' ')
}

/// What one character becomes when written through an indenting sink:
/// a line break is followed by `n` spaces, anything else stays as it is.
pub open spec fn indent_char(c: char, n: nat) -> Seq<char> {
    if c == '\n' {
        seq!['\n'] + spaces(n)
    } else {
        seq![c]
    }
}

/// The text `s` with `n` spaces after each of its line breaks.
pub open spec fn indented(s: Seq<char>, n: nat) -> Seq<char>
    decreases s.len(),
{
    if s.len() == 0 {
        Seq::empty()
    } else {
        indented(s.drop_last(), n) + indent_char(s.last(), n)
    }
}

/// Relies on `String::push`: appends the character.
#[verifier::external_body]
pub(crate) fn push_char(s: &mut String, c: char)
    ensures
        final(s)@ == old(s)@.push(c),
{
    s.push(c);
}

/// Relies on `String::try_reserve`: asks for room for `additional` more bytes
/// and leaves the text as it is, whether or not the room was given.
#[verifier::external_body]
pub(crate) fn reserve_hint(s: &mut String, additional: usize)
    ensures
        final(s)@ == old(s)@,
{
    let _ = s.try_reserve(additional);
}

/// Appending one character to the input appends its indented form.
pub proof fn lemma_indented_push(s: Seq<char>, c: char, n: nat)
    ensures
        indented(s.push(c), n) == indented(s, n) + indent_char(c, n),
{
    assert(s.push(c).drop_last() =~= s);
}

/// One character is indented as `indent_char` says.
pub proof fn lemma_indented_one(c: char, n: nat)
    ensures
        indented(seq![c], n) == indent_char(c, n),
{
    lemma_indented_push(Seq::empty(), c, n);
    assert(Seq::<char>::empty().push(c) =~= seq![c]);
    assert(Seq::<char>::empty() + indent_char(c, n) =~= indent_char(c, n));
}

/// Indentation of a concatenation is the concatenation of the indentations.
pub proof fn lemma_indented_concat(a: Seq<char>, b: Seq<char>, n: nat)
    ensures
        indented(a + b, n) == indented(a, n) + indented(b, n),
    decreases b.len(),
{
    if b.len() == 0 {
        assert(a + b =~= a);
        assert(indented(a, n) + indented(b, n) =~= indented(a, n));
    } else {
        lemma_indented_concat(a, b.drop_last(), n);
        assert((a + b).drop_last() =~= a + b.drop_last());
        assert((a + b).last() == b.last());
        assert(indented(a + b, n) =~= indented(a, n) + indented(b, n));
    }
}

/// With a width of zero, indentation changes nothing.
pub proof fn lemma_indented_zero(s: Seq<char>)
    ensures
        indented(s, 0) == s,
    decreases s.len(),
{
    if s.len() > 0 {
        lemma_indented_zero(s.drop_last());
        assert(spaces(0) =~= Seq::<char>::empty());
        assert(s.drop_last().push(s.last()) =~= s);
        assert(indent_char(s.last(), 0) =~= seq![s.last()]);
    }
}

/// Indentation depends on the characters written and not on how the writes
/// were split: feeding the text one character at a time gives the same result
/// as writing it whole.
pub proof fn law_indent_per_character(s: Seq<char>, n: nat)
    ensures
        indented(s, n) == s.fold_left(
            Seq::<char>::empty(),
            |acc: Seq<char>, c: char| acc + indented(seq![c], n),
        ),
    decreases s.len(),
{
    if s.len() > 0 {
        law_indent_per_character(s.drop_last(), n);
        lemma_indented_push(Seq::empty(), s.last(), n);
        assert(Seq::<char>::empty().push(s.last()) =~= seq![s.last()]);
        assert(indented(Seq::<char>::empty(), n) + indent_char(s.last(), n) =~= indent_char(
            s.last(),
            n,
        ));
    }
}

/// The decimal digit for `d`, where `d < 10`.
pub open spec fn digit(d: nat) -> char {
    seq!['0', '1', '2', '3', '4', '5', '6', '7', '8', '9'][d as int]
}

/// The decimal digits of `n`, without leading zeros.
pub open spec fn decimal(n: nat) -> Seq<char>
    decreases n,
{
    if n < 10 {
        seq![digit(n)]
    } else {
        decimal(n / 10).push(digit(n % 10))
    }
}

/// `v` in decimal, with a leading `-` when negative.
pub open spec fn signed_decimal(v: int) -> Seq<char> {
    if v < 0 {
        seq!['-'] + decimal((-v) as nat)
    } else {
        decimal(v as nat)
    }
}

/// Relies on `itoa::Buffer::format` for an unsigned integer: its decimal
/// digits, without sign, leading zeros or grouping.
#[verifier::external_body]
pub(crate) fn unsigned_text(v: u128) -> (r: String)
    ensures
        r@ == decimal(v as nat),
{
    itoa::Buffer::new().format(v).to_owned()
}

/// Relies on `itoa::Buffer::format` for a signed integer: a `-` when
/// negative, then the decimal digits of its magnitude.
#[verifier::external_body]
pub(crate) fn signed_text(v: i128) -> (r: String)
    ensures
        r@ == signed_decimal(v as int),
{
    itoa::Buffer::new().format(v).to_owned()
}

} // verus!
