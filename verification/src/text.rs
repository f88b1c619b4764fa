//! Conversions between strings and sequences of characters.

use vstd::prelude::*;
use vstd::string::*;

verus! {

/// `String::push` appends the character to the end of the string.
pub assume_specification[ String::push ](s: &mut String, ch: char)
    ensures
        final(s)@ == old(s)@.push(ch),
;

/// The characters of `s`, in order.
pub fn chars_of(s: &str) -> (v: Vec<char>)
    ensures
        v@ == s@,
{
    let n: usize = s.unicode_len();
    let mut v: Vec<char> = Vec::new();
    let mut i: usize = 0;
    while i < n
        invariant
            n == s@.len(),
            i <= n,
            v@ == s@.subrange(0, i as int),
        decreases n - i,
    {
        let c: char = s.get_char(i);
        v.push(c);
        i += 1;
        assert(v@ =~= s@.subrange(0, i as int));
    }
    assert(s@.subrange(0, n as int) =~= s@);
    v
}

/// The string made of the characters of `v`, in order.
pub fn string_of(v: &Vec<char>) -> (s: String)
    ensures
        s@ == v@,
{
    let mut s: String = String::new();
    let mut i: usize = 0;
    while i < v.len()
        invariant
            i <= v.len(),
            s@ == v@.subrange(0, i as int),
        decreases v.len() - i,
    {
        s.push(v[i]);
        i += 1;
        assert(s@ =~= v@.subrange(0, i as int));
    }
    assert(v@.subrange(0, v.len() as int) =~= v@);
    s
}

/// The fields of `s`, which `sep` separates: one more than `sep` occurs in
/// `s`, empty fields included.
pub open spec fn split(s: Seq<char>, sep: char) -> Seq<Seq<char>>
    decreases s.len(),
{
    if s.len() == 0 {
        seq![Seq::empty()]
    } else {
        let before = split(s.drop_last(), sep);
        if s.last() == sep {
            before.push(Seq::empty())
        } else {
            before.drop_last().push(before.last().push(s.last()))
        }
    }
}

/// The fields, in order, with `sep` between each two.
pub open spec fn join(fields: Seq<Seq<char>>, sep: char) -> Seq<char>
    decreases fields.len(),
{
    if fields.len() == 0 {
        Seq::empty()
    } else if fields.len() == 1 {
        fields[0]
    } else {
        join(fields.drop_last(), sep).push(sep) + fields.last()
    }
}

/// A text has at least one field.
pub proof fn lemma_split_nonempty(s: Seq<char>, sep: char)
    ensures
        split(s, sep).len() >= 1,
    decreases s.len(),
{
    if s.len() > 0 {
        lemma_split_nonempty(s.drop_last(), sep);
    }
}

/// Joining the fields of a text gives the text back.
pub proof fn lemma_join_split(s: Seq<char>, sep: char)
    ensures
        join(split(s, sep), sep) == s,
    decreases s.len(),
{
    if s.len() == 0 {
        assert(join(split(s, sep), sep) =~= s);
    } else {
        let before = split(s.drop_last(), sep);
        lemma_split_nonempty(s.drop_last(), sep);
        lemma_join_split(s.drop_last(), sep);
        let all = split(s, sep);
        if s.last() == sep {
            assert(all.drop_last() =~= before);
            assert(join(all, sep) =~= s.drop_last().push(sep));
        } else {
            let grown = before.last().push(s.last());
            assert(all.last() == grown);
            if before.len() == 1 {
                assert(join(all, sep) =~= s.drop_last().push(s.last()));
            } else {
                assert(all.drop_last() =~= before.drop_last());
                assert(join(all, sep) =~= join(before, sep).push(s.last()));
            }
        }
        assert(s.drop_last().push(s.last()) =~= s);
    }
}

/// Whether `fields` are the views of `v`, one for one.
pub open spec fn views_are(v: Seq<Vec<char>>, fields: Seq<Seq<char>>) -> bool {
    v.len() == fields.len() && forall|i: int| 0 <= i < v.len() ==> (#[trigger] v[i])@ == fields[i]
}

/// The fields of `s`, which `sep` separates.
pub fn split_chars(s: &Vec<char>, sep: char) -> (fields: Vec<Vec<char>>)
    ensures
        views_are(fields@, split(s@, sep)),
{
    let mut fields: Vec<Vec<char>> = Vec::new();
    let mut current: Vec<char> = Vec::new();
    let mut i: usize = 0;
    while i < s.len()
        invariant
            i <= s.len(),
            split(s@.take(i as int), sep).len() == fields@.len() + 1,
            views_are(fields@, split(s@.take(i as int), sep).drop_last()),
            current@ == split(s@.take(i as int), sep).last(),
        decreases s.len() - i,
    {
        let c: char = s[i];
        proof {
            assert(s@.take(i + 1).drop_last() =~= s@.take(i as int));
            assert(s@.take(i + 1).last() == c);
        }
        if c == sep {
            fields.push(current);
            current = Vec::new();
        } else {
            current.push(c);
        }
        i += 1;
        proof {
            let now = split(s@.take(i as int), sep);
            let before = split(s@.take(i - 1), sep);
            if c == sep {
                assert(now.drop_last() =~= before);
            } else {
                assert(now.drop_last() =~= before.drop_last());
            }
        }
    }
    proof {
        assert(s@.take(s@.len() as int) =~= s@);
    }
    fields.push(current);
    proof {
        let all = split(s@, sep);
        assert(all =~= all.drop_last().push(all.last()));
    }
    fields
}

/// Appends the characters of `part` to `out`.
pub fn push_all(out: &mut Vec<char>, part: &Vec<char>)
    ensures
        final(out)@ == old(out)@ + part@,
{
    let mut i: usize = 0;
    while i < part.len()
        invariant
            i <= part.len(),
            out@ == old(out)@ + part@.take(i as int),
        decreases part.len() - i,
    {
        out.push(part[i]);
        i += 1;
        assert(out@ =~= old(out)@ + part@.take(i as int));
    }
    assert(part@.take(part@.len() as int) =~= part@);
}

/// Whether `c` is a decimal digit.
pub open spec fn is_digit(c: char) -> bool {
    '0' <= c <= '9'
}

/// The value of the digit `c`.
pub open spec fn digit_value(c: char) -> nat {
    (c as int - '0' as int) as nat
}

/// The digit of the value `d`, which is below ten.
pub open spec fn digit_char(d: nat) -> char {
    ('0' as int + d) as char
}

/// The number that the digits of `t` write in base ten.
pub open spec fn decimal_value(t: Seq<char>) -> nat
    decreases t.len(),
{
    if t.len() == 0 {
        0
    } else {
        decimal_value(t.drop_last()) * 10 + digit_value(t.last())
    }
}

/// The digits of `n` in base ten, without a leading zero but for zero
/// itself.
pub open spec fn decimal_text(n: nat) -> Seq<char>
    decreases n,
{
    if n < 10 {
        seq![digit_char(n)]
    } else {
        decimal_text(n / 10).push(digit_char(n % 10))
    }
}

/// Whether `t` writes a number in base ten as `decimal_text` does: at least
/// one digit, only digits, and no leading zero but for zero itself.
pub open spec fn is_decimal(t: Seq<char>) -> bool {
    &&& t.len() >= 1
    &&& forall|i: int| 0 <= i < t.len() ==> is_digit(#[trigger] t[i])
    &&& t.len() == 1 || t[0] != '0'
}

/// A number written without a leading zero in more than one digit is at
/// least ten.
pub proof fn lemma_decimal_value_grows(t: Seq<char>)
    requires
        is_decimal(t),
    ensures
        t.len() >= 2 ==> decimal_value(t) >= 10,
        t[0] != '0' ==> decimal_value(t) >= 1,
    decreases t.len(),
{
    if t.len() >= 2 {
        let init = t.drop_last();
        assert(init[0] == t[0]);
        assert forall|i: int| 0 <= i < init.len() implies is_digit(#[trigger] init[i]) by {
            assert(init[i] == t[i]);
        }
        lemma_decimal_value_grows(init);
    } else {
        assert(t.drop_last().len() == 0);
        assert(decimal_value(t.drop_last()) == 0);
    }
}

/// Writing the number that a decimal text reads as gives the text back.
pub proof fn lemma_decimal_text_of_value(t: Seq<char>)
    requires
        is_decimal(t),
    ensures
        decimal_text(decimal_value(t)) == t,
    decreases t.len(),
{
    let init = t.drop_last();
    let d = digit_value(t.last());
    assert(is_digit(t[t.len() - 1]));
    if t.len() == 1 {
        assert(decimal_value(init) == 0);
        assert(decimal_text(decimal_value(t)) =~= t);
    } else {
        assert(init[0] == t[0]);
        assert forall|i: int| 0 <= i < init.len() implies is_digit(#[trigger] init[i]) by {
            assert(init[i] == t[i]);
        }
        lemma_decimal_value_grows(init);
        lemma_decimal_text_of_value(init);
        let n = decimal_value(t);
        assert(n == decimal_value(init) * 10 + d);
        assert(n / 10 == decimal_value(init) && n % 10 == d);
        assert(decimal_text(n) =~= init.push(t.last()));
        assert(init.push(t.last()) =~= t);
    }
}

/// The digits that `decimal_text` writes are a decimal text, and read as
/// the number written.
pub proof fn lemma_decimal_value_of_text(n: nat)
    ensures
        is_decimal(decimal_text(n)),
        decimal_value(decimal_text(n)) == n,
    decreases n,
{
    let t = decimal_text(n);
    if n < 10 {
        assert(t.drop_last() =~= Seq::<char>::empty());
        assert(decimal_value(t.drop_last()) == 0);
    } else {
        lemma_decimal_value_of_text(n / 10);
        let init = decimal_text(n / 10);
        assert(t.drop_last() =~= init);
        assert(t[0] == init[0]);
        assert(init.len() == 1 ==> init[0] != '0') by {
            if init.len() == 1 && init[0] == '0' {
                assert(init.drop_last().len() == 0);
                assert(decimal_value(init.drop_last()) == 0);
                assert(decimal_value(init) == 0);
            }
        }
        assert forall|i: int| 0 <= i < t.len() implies is_digit(#[trigger] t[i]) by {
            if i < init.len() {
                assert(t[i] == init[i]);
            }
        }
    }
}

/// A decimal text reads as no less than any of its prefixes does.
pub proof fn lemma_decimal_prefix(t: Seq<char>, k: int)
    requires
        0 <= k <= t.len(),
    ensures
        decimal_value(t.take(k)) <= decimal_value(t),
    decreases t.len() - k,
{
    if k < t.len() {
        lemma_decimal_prefix(t, k + 1);
        assert(t.take(k + 1).drop_last() =~= t.take(k));
        assert(decimal_value(t.take(k)) * 10 >= decimal_value(t.take(k))) by (nonlinear_arith);
    } else {
        assert(t.take(k) =~= t);
    }
}

/// Appends the digits of `n` to `out`.
pub fn push_decimal(out: &mut Vec<char>, n: u64)
    ensures
        final(out)@ == old(out)@ + decimal_text(n as nat),
    decreases n,
{
    if n >= 10 {
        push_decimal(out, n / 10);
    }
    let d: u8 = (n % 10) as u8;
    out.push((('0' as u8) + d) as char);
    assert(out@ =~= old(out)@ + decimal_text(n as nat));
}

/// Reads `t` as a number of at most `max`: the number where `t` is a decimal
/// text of such a number, nothing otherwise.
pub fn read_decimal(t: &Vec<char>, max: u64) -> (r: Option<u64>)
    ensures
        r is Some <==> is_decimal(t@) && decimal_value(t@) <= max,
        r matches Some(n) ==> n == decimal_value(t@),
{
    if t.len() == 0 {
        return None;
    }
    if t.len() > 1 && t[0] == '0' {
        return None;
    }
    let mut n: u64 = 0;
    let mut i: usize = 0;
    while i < t.len()
        invariant
            i <= t.len(),
            n == decimal_value(t@.take(i as int)),
            n <= max,
            forall|j: int| 0 <= j < i ==> is_digit(#[trigger] t@[j]),
        decreases t.len() - i,
    {
        let c: char = t[i];
        if !('0' <= c && c <= '9') {
            return None;
        }
        let d: u64 = ((c as u8) - ('0' as u8)) as u64;
        proof {
            assert(t@.take(i + 1).drop_last() =~= t@.take(i as int));
            assert(t@.take(i + 1).last() == c);
            lemma_decimal_prefix(t@, i + 1);
        }
        if d > max || n > (max - d) / 10 {
            return None;
        }
        n = n * 10 + d;
        i += 1;
    }
    assert(t@.take(t@.len() as int) =~= t@);
    Some(n)
}

/// Joining one more field puts the separator and that field behind the
/// others.
pub proof fn lemma_join_push(fields: Seq<Seq<char>>, last: Seq<char>, sep: char)
    ensures
        join(fields.push(last), sep) == if fields.len() == 0 {
            last
        } else {
            join(fields, sep).push(sep) + last
        },
{
    assert(fields.push(last).drop_last() =~= fields);
}

/// Whether `c` occurs nowhere in `s`.
pub open spec fn free_of(s: Seq<char>, c: char) -> bool {
    forall|i: int| 0 <= i < s.len() ==> #[trigger] s[i] != c
}

/// Text without the separator, put behind a text, lengthens its last field.
pub proof fn lemma_split_append(s: Seq<char>, t: Seq<char>, sep: char)
    requires
        free_of(t, sep),
    ensures
        split(s + t, sep) == split(s, sep).drop_last().push(split(s, sep).last() + t),
    decreases t.len(),
{
    lemma_split_nonempty(s, sep);
    let fields = split(s, sep);
    if t.len() == 0 {
        assert(s + t =~= s);
        assert(fields.last() + t =~= fields.last());
        assert(fields.drop_last().push(fields.last()) =~= fields);
    } else {
        let init = t.drop_last();
        assert(free_of(init, sep)) by {
            assert forall|i: int| 0 <= i < init.len() implies #[trigger] init[i] != sep by {
                assert(init[i] == t[i]);
            }
        }
        lemma_split_append(s, init, sep);
        assert((s + t).drop_last() =~= s + init);
        assert((s + t).last() == t.last());
        assert(t[t.len() - 1] != sep);
        let before = split(s + init, sep);
        assert(before.drop_last() =~= fields.drop_last());
        assert(before.last().push(t.last()) =~= fields.last() + t);
    }
}

/// The fields of joined fields, none of which holds the separator, are
/// those fields.
pub proof fn lemma_split_join(fields: Seq<Seq<char>>, sep: char)
    requires
        fields.len() >= 1,
        forall|i: int| 0 <= i < fields.len() ==> free_of(#[trigger] fields[i], sep),
    ensures
        split(join(fields, sep), sep) == fields,
    decreases fields.len(),
{
    let last = fields.last();
    assert(free_of(last, sep));
    if fields.len() == 1 {
        let none = Seq::<char>::empty();
        lemma_split_append(none, last, sep);
        assert(none + last =~= last);
        assert(split(none, sep) =~= seq![none]);
        assert(none + last =~= last);
        assert(split(none, sep).drop_last().push(split(none, sep).last() + last) =~= fields);
    } else {
        let init = fields.drop_last();
        assert forall|i: int| 0 <= i < init.len() implies free_of(#[trigger] init[i], sep) by {
            assert(init[i] == fields[i]);
        }
        lemma_split_join(init, sep);
        let head = join(init, sep).push(sep);
        assert(head.drop_last() =~= join(init, sep));
        assert(split(head, sep) == init.push(Seq::empty()));
        lemma_split_append(head, last, sep);
        assert(Seq::<char>::empty() + last =~= last);
        assert(init.push(Seq::empty()).drop_last() =~= init);
        assert(init.push(last) =~= fields);
    }
}

/// Joined fields hold a character other than the separator only where a
/// field holds it.
pub proof fn lemma_join_free_of(fields: Seq<Seq<char>>, sep: char, c: char)
    requires
        c != sep,
        forall|i: int| 0 <= i < fields.len() ==> free_of(#[trigger] fields[i], c),
    ensures
        free_of(join(fields, sep), c),
    decreases fields.len(),
{
    if fields.len() == 1 {
        assert(free_of(fields[0], c));
    } else if fields.len() > 1 {
        let init = fields.drop_last();
        assert forall|i: int| 0 <= i < init.len() implies free_of(#[trigger] init[i], c) by {
            assert(init[i] == fields[i]);
        }
        lemma_join_free_of(init, sep, c);
        assert(free_of(fields.last(), c));
    }
}

/// The digits of a number hold nothing but digits.
pub proof fn lemma_decimal_free_of(n: nat, c: char)
    requires
        !is_digit(c),
    ensures
        free_of(decimal_text(n), c),
{
    lemma_decimal_value_of_text(n);
    let t = decimal_text(n);
    assert forall|i: int| 0 <= i < t.len() implies #[trigger] t[i] != c by {
        assert(is_digit(t[i]));
    }
}

} // verus!
