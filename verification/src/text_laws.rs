//! What taking texts apart gives back of how they were put together.
use crate::ordered;
use crate::text;
use vstd::prelude::*;

verus! {

/// Whether a character does not stand in a text.
pub open spec fn lacks(s: Seq<char>, c: char) -> bool {
    forall|i: int| 0 <= i < s.len() ==> #[trigger] s[i] != c
}

/// Whether a text is nothing but white space.
pub open spec fn is_blank(s: Seq<char>) -> bool {
    forall|i: int| 0 <= i < s.len() ==> text::is_space(#[trigger] s[i])
}

/// Whether a text neither begins nor ends with white space.
pub open spec fn is_bare(s: Seq<char>) -> bool {
    s.len() > 0 ==> !text::is_space(s[0]) && !text::is_space(s.last())
}

/// A text is parted at the first occurrence of a character, which is in neither part; where it does
/// not occur, it is not parted.
pub proof fn law_text_is_parted_at_the_first(a: Seq<char>, b: Seq<char>, c: char)
    requires
        lacks(a, c),
    ensures
        text::split_once(a + seq![c] + b, c) == Some((a, b)),
        text::split_once(a, c) is None,
{
    let s = a + seq![c] + b;
    assert(s[a.len() as int] == c);
    text::lemma_find_is(s, c, a.len() as int);
    assert(s.take(a.len() as int) =~= a);
    assert(s.skip(a.len() as int + 1) =~= b);
    text::lemma_find_is(a, c, a.len() as int);
}

/// A text is parted at the last occurrence of a character.
pub proof fn law_text_is_parted_at_the_last(a: Seq<char>, b: Seq<char>, c: char)
    requires
        lacks(b, c),
    ensures
        text::rsplit_once(a + seq![c] + b, c) == Some((a, b)),
        text::rsplit_once(b, c) is None,
{
    let s = a + seq![c] + b;
    text::lemma_rfind(s, c);
    assert(s[a.len() as int] == c);
    let r = text::rfind(s, c);
    if r > a.len() {
        assert(s[r] == b[r - a.len() - 1]);
    }
    assert(s.take(a.len() as int) =~= a);
    assert(s.skip(a.len() as int + 1) =~= b);
    text::lemma_rfind(b, c);
}

/// The first part of a text is what stands before the first separator, and the other parts are
/// those of what follows it.
pub proof fn law_parts_follow_one_another(a: Seq<char>, rest: Seq<char>, c: char)
    requires
        lacks(a, c),
    ensures
        text::split(a + seq![c] + rest, c) == seq![a] + text::split(rest, c),
        text::split(a, c) == seq![a],
{
    let s = a + seq![c] + rest;
    assert(s[a.len() as int] == c);
    text::lemma_find_is(s, c, a.len() as int);
    assert(s.take(a.len() as int) =~= a);
    assert(s.skip(a.len() as int + 1) =~= rest);
    text::lemma_find_is(a, c, a.len() as int);
}

/// Joining puts the separator between the parts and nowhere else.
pub proof fn law_joined_parts(parts: Seq<Seq<char>>, last: Seq<char>, separator: Seq<char>)
    ensures
        text::join(seq![], separator) == Seq::<char>::empty(),
        text::join(seq![last], separator) == last,
        parts.len() > 0 ==> text::join(parts.push(last), separator) == text::join(parts, separator)
            + separator + last,
{
    assert(parts.push(last).drop_last() =~= parts);
}

/// What was put before a text is taken from it again, and only that.
pub proof fn law_prefix_is_taken_off(prefix: Seq<char>, rest: Seq<char>, s: Seq<char>)
    ensures
        text::strip_prefix(prefix + rest, prefix) == Some(rest),
        text::strip_prefix(s, prefix) matches Some(rest) ==> s == prefix + rest,
        text::starts_with(s, prefix) <==> text::strip_prefix(s, prefix) is Some,
        prefix.len() > 0 ==> text::strip_all(prefix + rest, prefix) == text::strip_all(
            rest,
            prefix,
        ),
        !text::starts_with(s, prefix) ==> text::strip_all(s, prefix) == s,
{
    assert((prefix + rest).take(prefix.len() as int) =~= prefix);
    assert((prefix + rest).skip(prefix.len() as int) =~= rest);
    if text::starts_with(s, prefix) {
        assert(s =~= s.take(prefix.len() as int) + s.skip(prefix.len() as int));
    }
}

proof fn lemma_trim_start(blank: Seq<char>, rest: Seq<char>)
    requires
        is_blank(blank),
    ensures
        text::trim_start(blank + rest) == text::trim_start(rest),
    decreases blank.len(),
{
    if blank.len() > 0 {
        assert((blank + rest)[0] == blank[0]);
        assert((blank + rest).drop_first() =~= blank.drop_first() + rest);
        assert forall|i: int| 0 <= i < blank.drop_first().len() implies text::is_space(
            #[trigger] blank.drop_first()[i],
        ) by {
            assert(text::is_space(blank[i + 1]));
        }
        lemma_trim_start(blank.drop_first(), rest);
    } else {
        assert(blank + rest =~= rest);
    }
}

proof fn lemma_trim_end(front: Seq<char>, blank: Seq<char>)
    requires
        is_blank(blank),
    ensures
        text::trim_end(front + blank) == text::trim_end(front),
    decreases blank.len(),
{
    if blank.len() > 0 {
        assert((front + blank).last() == blank[blank.len() - 1]);
        assert((front + blank).drop_last() =~= front + blank.drop_last());
        assert forall|i: int| 0 <= i < blank.drop_last().len() implies text::is_space(
            #[trigger] blank.drop_last()[i],
        ) by {
            assert(text::is_space(blank[i]));
        }
        lemma_trim_end(front, blank.drop_last());
    } else {
        assert(front + blank =~= front);
    }
}

/// White space around a text is taken from it, and nothing else.
pub proof fn law_white_space_around_is_taken_off(
    before: Seq<char>,
    core: Seq<char>,
    after: Seq<char>,
)
    requires
        is_blank(before),
        is_bare(core),
        is_blank(after),
    ensures
        text::trim(before + core + after) == core,
{
    assert(before + core + after =~= before + (core + after));
    lemma_trim_start(before, core + after);
    if core.len() > 0 {
        assert((core + after)[0] == core[0]);
        lemma_trim_end(core, after);
    } else {
        assert(core + after =~= after + core);
        lemma_trim_start(after, core);
        assert(text::trim_end(core) == core);
    }
}

/// A character at the end of a text is taken from it as often as it stands there.
pub proof fn law_characters_at_the_end_are_taken_off(core: Seq<char>, c: char, n: nat)
    requires
        core.len() > 0 ==> core.last() != c,
    ensures
        text::trim_end_char(core + Seq::new(n, |i: int| c), c) == core,
    decreases n,
{
    let all = core + Seq::new(n, |i: int| c);
    if n > 0 {
        assert(all.last() == c);
        assert(all.drop_last() =~= core + Seq::new((n - 1) as nat, |i: int| c));
        law_characters_at_the_end_are_taken_off(core, c, (n - 1) as nat);
    } else {
        assert(all =~= core);
    }
}

/// A character at the beginning of a text is taken from it as often as it stands there.
pub proof fn law_characters_at_the_beginning_are_taken_off(core: Seq<char>, c: char, n: nat)
    requires
        core.len() > 0 ==> core[0] != c,
    ensures
        text::trim_start_char(Seq::new(n, |i: int| c) + core, c) == core,
    decreases n,
{
    let all = Seq::new(n, |i: int| c) + core;
    if n > 0 {
        assert(all[0] == c);
        assert(all.drop_first() =~= Seq::new((n - 1) as nat, |i: int| c) + core);
        law_characters_at_the_beginning_are_taken_off(core, c, (n - 1) as nat);
    } else {
        assert(all =~= core);
    }
}

/// The first word of a text is what stands before its first white space, and white space before a
/// word does not count.
pub proof fn law_words_follow_one_another(
    before: Seq<char>,
    word: Seq<char>,
    space: char,
    rest: Seq<char>,
)
    requires
        is_blank(before),
        word.len() > 0,
        forall|i: int| 0 <= i < word.len() ==> !text::is_space(#[trigger] word[i]),
        text::is_space(space),
    ensures
        text::words(before + word + seq![space] + rest) == seq![word] + text::words(rest),
        text::words(before + word) == seq![word],
        text::words(before) == Seq::<Seq<char>>::empty(),
{
    let s = word + seq![space] + rest;
    assert(before + word + seq![space] + rest =~= before + s);
    lemma_words_skip(before, s);
    lemma_words_skip(before, word);
    lemma_words_skip(before, seq![]);
    assert(before + seq![] =~= before);
    let n = word.len() as int;
    assert(s[0] == word[0]);
    assert(s[n] == space);
    lemma_word_len_is(s, n);
    assert(s.take(n) =~= word);
    assert(s.skip(n)[0] == space);
    assert(s.skip(n).drop_first() =~= rest);
    assert(text::words(s.skip(n)) == text::words(rest));
    lemma_word_len_is(word, n);
    assert(word.take(n) =~= word);
    assert(word.skip(n) =~= Seq::<char>::empty());
    assert(text::words(word) =~= seq![word]);
}

proof fn lemma_word_len_is(s: Seq<char>, n: int)
    requires
        0 <= n <= s.len(),
        forall|i: int| 0 <= i < n ==> !text::is_space(#[trigger] s[i]),
        n < s.len() ==> text::is_space(s[n]),
    ensures
        text::word_len(s) == n,
{
    text::lemma_word_len(s);
    let m = text::word_len(s);
    if m < n {
        assert(text::is_space(s[m]));
    } else if m > n {
        assert(!text::is_space(s[n]));
    }
}

proof fn lemma_words_skip(blank: Seq<char>, rest: Seq<char>)
    requires
        is_blank(blank),
    ensures
        text::words(blank + rest) == text::words(rest),
    decreases blank.len(),
{
    if blank.len() > 0 {
        assert((blank + rest)[0] == blank[0]);
        assert((blank + rest).drop_first() =~= blank.drop_first() + rest);
        assert forall|i: int| 0 <= i < blank.drop_first().len() implies text::is_space(
            #[trigger] blank.drop_first()[i],
        ) by {
            assert(text::is_space(blank[i + 1]));
        }
        lemma_words_skip(blank.drop_first(), rest);
    } else {
        assert(blank + rest =~= rest);
    }
}

/// The first line of a text ends at its first line feed, and a carriage return before that belongs
/// to the line ending. A text without a line feed is one line.
pub proof fn law_lines_follow_one_another(line: Seq<char>, rest: Seq<char>)
    requires
        lacks(line, '\n'),
    ensures
        line.len() > 0 && line.last() == '\r' ==> text::lines(line + seq!['\n'] + rest)
            == seq![line.drop_last()] + text::lines(rest),
        line.len() == 0 || line.last() != '\r' ==> text::lines(line + seq!['\n'] + rest)
            == seq![line] + text::lines(rest),
        line.len() > 0 ==> text::lines(line) == seq![line],
        text::lines(seq![]) == Seq::<Seq<char>>::empty(),
{
    let s = line + seq!['\n'] + rest;
    let n = line.len() as int;
    assert(s[n] == '\n');
    text::lemma_find_is(s, '\n', n);
    assert(s.take(n) =~= line);
    assert(s.skip(n + 1) =~= rest);
    text::lemma_find_is(line, '\n', n);
}

pub(crate) proof fn lemma_decimal(n: nat)
    ensures
        text::decimal(n).len() > 0,
        forall|i: int| 0 <= i < text::decimal(n).len() ==> text::is_digit(
            #[trigger] text::decimal(n)[i],
        ),
        text::digits_value(text::decimal(n)) == n,
        n > 0 ==> text::decimal(n)[0] != '0',
    decreases n,
{
    let digit = ('0' as u32 + n % 10) as char;
    assert(text::is_digit(digit));
    assert(digit as u32 - '0' as u32 == n % 10);
    if n < 10 {
        assert(seq![digit].drop_last() =~= Seq::<char>::empty());
        assert(text::digits_value(Seq::<char>::empty()) == 0);
    } else {
        lemma_decimal(n / 10);
        let front = text::decimal(n / 10);
        assert(front.push(digit).drop_last() =~= front);
    }
}

/// The spelling of a number spells that number, with or without a plus sign before it. It has no
/// zero in front.
pub proof fn law_spelled_numbers_are_read_back(n: u64)
    ensures
        text::number(text::decimal(n as nat)) == Some(n),
        text::is_digit(text::decimal(n as nat)[0]),
        n > 0 ==> text::decimal(n as nat)[0] != '0',
        n == 0 ==> text::decimal(n as nat) == seq!['0'],
        text::number(seq!['+'] + text::decimal(n as nat)) == Some(n),
{
    let s = text::decimal(n as nat);
    lemma_decimal(n as nat);
    assert(text::is_digit(s[0]));
    assert((seq!['+'] + s).drop_first() =~= s);
    assert(s.all(|c: char| text::is_digit(c)));
}

/// A text with anything but digits in it, after a plus sign at most, spells no number; nor does a
/// text without digits.
pub proof fn law_only_digits_spell_numbers(s: Seq<char>, i: int)
    requires
        0 <= i < s.len(),
        !text::is_digit(s[i]),
        i > 0 || s[0] != '+',
    ensures
        text::number(s) is None,
        text::number(seq![]) is None,
        text::number(seq!['+']) is None,
{
    let digits = if s[0] == '+' {
        s.drop_first()
    } else {
        s
    };
    let k = if s[0] == '+' {
        i - 1
    } else {
        i
    };
    assert(digits[k] == s[i]);
    let p = |c: char| text::is_digit(c);
    assert(!p(digits[k]));
    assert(!digits.all(p));
    assert(seq!['+'].drop_first() =~= Seq::<char>::empty());
}

/// In lower case, letters from A to Z become those from a to z, one for one, and nothing else
/// changes.
pub proof fn law_lower_case_is_letter_by_letter(s: Seq<char>, i: int)
    requires
        0 <= i < s.len(),
    ensures
        text::lowercase(s).len() == s.len(),
        'A' <= s[i] <= 'Z' ==> text::lowercase(s)[i] as u32 - 'a' as u32 == s[i] as u32 - 'A' as u32,
        !('A' <= s[i] <= 'Z') ==> text::lowercase(s)[i] == s[i],
{
}

/// Texts are ordered by the first character in which they differ, and a text comes before every
/// longer one that begins with it.
pub proof fn law_texts_are_ordered_by_their_first_difference(
    same: Seq<char>,
    x: char,
    a: Seq<char>,
    y: char,
    b: Seq<char>,
)
    ensures
        x != y ==> ordered::precedes(same + seq![x] + a, same + seq![y] + b) == (x < y),
        ordered::precedes(same, same + seq![x] + a),
        !ordered::precedes(same + seq![x] + a, same),
        !ordered::precedes(same, same),
    decreases same.len(),
{
    let s = same + seq![x] + a;
    let t = same + seq![y] + b;
    if same.len() > 0 {
        let rest = same.drop_first();
        assert(s[0] == same[0] && t[0] == same[0]);
        assert(s.drop_first() =~= rest + seq![x] + a);
        assert(t.drop_first() =~= rest + seq![y] + b);
        law_texts_are_ordered_by_their_first_difference(rest, x, a, y, b);
    } else {
        assert(s[0] == x && t[0] == y);
    }
}

/// The lines that hold something are listed in their order, without the white space around them;
/// the others are passed over.
pub proof fn law_filled_lines_are_listed(
    lines: Seq<Seq<char>>,
    before: Seq<char>,
    core: Seq<char>,
    after: Seq<char>,
)
    requires
        is_blank(before),
        is_bare(core),
        is_blank(after),
    ensures
        text::content(seq![]) == Seq::<Seq<char>>::empty(),
        core.len() > 0 ==> text::content(lines.push(before + core + after)) == text::content(
            lines,
        ).push(core),
        core.len() == 0 ==> text::content(lines.push(before + core + after)) == text::content(lines),
{
    law_white_space_around_is_taken_off(before, core, after);
    assert(lines.push(before + core + after).drop_last() =~= lines);
}

/// White space is what Unicode counts as such.
pub proof fn law_white_space(c: char)
    ensures
        text::is_space(c) <==> {
            let n = c as u32;
            ||| 9 <= n <= 13
            ||| n == 32 || n == 0x85 || n == 0xa0 || n == 0x1680
            ||| 0x2000 <= n <= 0x200a
            ||| n == 0x2028 || n == 0x2029 || n == 0x202f || n == 0x205f || n == 0x3000
        },
        text::is_hex_digit(c) <==> {
            let n = c as u32;
            ||| 48 <= n <= 57
            ||| 65 <= n <= 70
            ||| 97 <= n <= 102
        },
        text::is_digit(c) <==> 48 <= c as u32 <= 57,
{
}

} // verus!
