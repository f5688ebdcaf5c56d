//! Text as a sequence of characters: searching, splitting, trimming and joining.
use vstd::prelude::*;

verus! {

/// The position of the first `c` in `s`, or the length of `s` where there is none.
pub open spec fn find(s: Seq<char>, c: char) -> int
    decreases s.len(),
{
    if s.len() == 0 || s[0] == c {
        0
    } else {
        1 + find(s.drop_first(), c)
    }
}

/// The position of the last `c` in `s`, or -1 where there is none.
pub open spec fn rfind(s: Seq<char>, c: char) -> int
    decreases s.len(),
{
    if s.len() == 0 {
        -1
    } else if s.last() == c {
        s.len() - 1
    } else {
        rfind(s.drop_last(), c)
    }
}

/// The parts before and after the first `c`.
pub open spec fn split_once(s: Seq<char>, c: char) -> Option<(Seq<char>, Seq<char>)> {
    let i = find(s, c);
    if i < s.len() {
        Some((s.take(i), s.skip(i + 1)))
    } else {
        None
    }
}

/// The parts before and after the last `c`.
pub open spec fn rsplit_once(s: Seq<char>, c: char) -> Option<(Seq<char>, Seq<char>)> {
    let i = rfind(s, c);
    if i >= 0 {
        Some((s.take(i), s.skip(i + 1)))
    } else {
        None
    }
}

/// The parts between the occurrences of `c`; there is always at least one.
pub open spec fn split(s: Seq<char>, c: char) -> Seq<Seq<char>>
    decreases s.len(),
{
    let i = find(s, c);
    if 0 <= i < s.len() {
        seq![s.take(i)] + split(s.skip(i + 1), c)
    } else {
        seq![s]
    }
}

/// The parts of a list with `separator` between each two of them.
pub open spec fn join(parts: Seq<Seq<char>>, separator: Seq<char>) -> Seq<char>
    decreases parts.len(),
{
    if parts.len() == 0 {
        Seq::empty()
    } else if parts.len() == 1 {
        parts[0]
    } else {
        join(parts.drop_last(), separator) + separator + parts.last()
    }
}

pub open spec fn starts_with(s: Seq<char>, prefix: Seq<char>) -> bool {
    prefix.len() <= s.len() && s.take(prefix.len() as int) == prefix
}

/// What follows `prefix`, where `s` begins with it.
pub open spec fn strip_prefix(s: Seq<char>, prefix: Seq<char>) -> Option<Seq<char>> {
    if starts_with(s, prefix) {
        Some(s.skip(prefix.len() as int))
    } else {
        None
    }
}

/// What is left of `s` when `prefix` has been taken from its front as often as it stands there.
pub open spec fn strip_all(s: Seq<char>, prefix: Seq<char>) -> Seq<char>
    decreases s.len(),
{
    if prefix.len() > 0 && starts_with(s, prefix) {
        strip_all(s.skip(prefix.len() as int), prefix)
    } else {
        s
    }
}

pub open spec fn trim_start_char(s: Seq<char>, c: char) -> Seq<char>
    decreases s.len(),
{
    if s.len() > 0 && s[0] == c {
        trim_start_char(s.drop_first(), c)
    } else {
        s
    }
}

pub open spec fn trim_end_char(s: Seq<char>, c: char) -> Seq<char>
    decreases s.len(),
{
    if s.len() > 0 && s.last() == c {
        trim_end_char(s.drop_last(), c)
    } else {
        s
    }
}

/// The characters with the Unicode property `White_Space`.
pub open spec fn is_space(c: char) -> bool {
    ||| '\u{9}' <= c <= '\u{d}'
    ||| c == ' '
    ||| c == '\u{85}'
    ||| c == '\u{a0}'
    ||| c == '\u{1680}'
    ||| '\u{2000}' <= c <= '\u{200a}'
    ||| c == '\u{2028}'
    ||| c == '\u{2029}'
    ||| c == '\u{202f}'
    ||| c == '\u{205f}'
    ||| c == '\u{3000}'
}

pub open spec fn trim_start(s: Seq<char>) -> Seq<char>
    decreases s.len(),
{
    if s.len() > 0 && is_space(s[0]) {
        trim_start(s.drop_first())
    } else {
        s
    }
}

pub open spec fn trim_end(s: Seq<char>) -> Seq<char>
    decreases s.len(),
{
    if s.len() > 0 && is_space(s.last()) {
        trim_end(s.drop_last())
    } else {
        s
    }
}

pub open spec fn trim(s: Seq<char>) -> Seq<char> {
    trim_end(trim_start(s))
}

/// The number of characters before the first white space.
pub open spec fn word_len(s: Seq<char>) -> int
    decreases s.len(),
{
    if s.len() == 0 || is_space(s[0]) {
        0
    } else {
        1 + word_len(s.drop_first())
    }
}

/// The runs of characters between white space.
pub open spec fn words(s: Seq<char>) -> Seq<Seq<char>>
    decreases s.len(),
{
    if s.len() == 0 {
        Seq::empty()
    } else if is_space(s[0]) {
        words(s.drop_first())
    } else {
        let n = word_len(s);
        if 0 < n <= s.len() {
            seq![s.take(n)] + words(s.skip(n))
        } else {
            Seq::empty()
        }
    }
}

/// A line without the carriage return that may stand before its line feed.
pub open spec fn without_return(s: Seq<char>) -> Seq<char> {
    if s.len() > 0 && s.last() == '\r' {
        s.drop_last()
    } else {
        s
    }
}

/// The lines of a text, each without its line ending.
pub open spec fn lines(s: Seq<char>) -> Seq<Seq<char>>
    decreases s.len(),
{
    if s.len() == 0 {
        Seq::empty()
    } else {
        let i = find(s, '\n');
        if 0 <= i < s.len() {
            seq![without_return(s.take(i))] + lines(s.skip(i + 1))
        } else {
            seq![s]
        }
    }
}

/// The decimal spelling of a number.
pub open spec fn decimal(n: nat) -> Seq<char>
    decreases n,
{
    let digit = ('0' as u32 + n % 10) as char;
    if n < 10 {
        seq![digit]
    } else {
        decimal(n / 10).push(digit)
    }
}

pub open spec fn is_digit(c: char) -> bool {
    '0' <= c <= '9'
}

/// The number that a run of decimal digits spells.
pub open spec fn digits_value(s: Seq<char>) -> nat
    decreases s.len(),
{
    if s.len() == 0 {
        0
    } else {
        digits_value(s.drop_last()) * 10 + (s.last() as u32 - '0' as u32) as nat
    }
}

/// The unsigned 64-bit number that `s` spells: decimal digits with an optional `+` before them.
pub open spec fn number(s: Seq<char>) -> Option<u64> {
    let digits = if s.len() > 0 && s[0] == '+' {
        s.drop_first()
    } else {
        s
    };
    if digits.len() > 0 && digits.all(|c: char| is_digit(c)) && digits_value(digits) <= u64::MAX {
        Some(digits_value(digits) as u64)
    } else {
        None
    }
}

pub proof fn lemma_find(s: Seq<char>, c: char)
    ensures
        0 <= find(s, c) <= s.len(),
        forall|j: int| 0 <= j < find(s, c) ==> s[j] != c,
        find(s, c) < s.len() ==> s[find(s, c)] == c,
    decreases s.len(),
{
    if s.len() > 0 && s[0] != c {
        lemma_find(s.drop_first(), c);
        assert forall|j: int| 0 <= j < find(s, c) implies s[j] != c by {
            if j > 0 {
                assert(s.drop_first()[j - 1] == s[j]);
            }
        }
    }
}

pub proof fn lemma_find_is(s: Seq<char>, c: char, i: int)
    requires
        0 <= i <= s.len(),
        forall|j: int| 0 <= j < i ==> s[j] != c,
        i < s.len() ==> s[i] == c,
    ensures
        find(s, c) == i,
{
    lemma_find(s, c);
}

pub proof fn lemma_rfind(s: Seq<char>, c: char)
    ensures
        -1 <= rfind(s, c) < s.len(),
        forall|j: int| rfind(s, c) < j < s.len() ==> s[j] != c,
        rfind(s, c) >= 0 ==> s[rfind(s, c)] == c,
    decreases s.len(),
{
    if s.len() > 0 && s.last() != c {
        lemma_rfind(s.drop_last(), c);
        assert forall|j: int| rfind(s, c) < j < s.len() implies s[j] != c by {
            if j < s.len() - 1 {
                assert(s.drop_last()[j] == s[j]);
            }
        }
    }
}

pub proof fn lemma_word_len(s: Seq<char>)
    ensures
        0 <= word_len(s) <= s.len(),
        forall|j: int| 0 <= j < word_len(s) ==> !is_space(s[j]),
        word_len(s) < s.len() ==> is_space(s[word_len(s)]),
    decreases s.len(),
{
    if s.len() > 0 && !is_space(s[0]) {
        lemma_word_len(s.drop_first());
        assert forall|j: int| 0 <= j < word_len(s) implies !is_space(s[j]) by {
            if j > 0 {
                assert(s.drop_first()[j - 1] == s[j]);
            }
        }
    }
}

pub fn chars_of(s: &str) -> (r: Vec<char>)
    ensures
        r@ == s@,
{
    let mut out: Vec<char> = Vec::new();
    for c in it: s.chars()
        invariant
            out@ == s@.take(it.index() as int),
            it.seq() == s@,
    {
        out.push(c);
    }
    out
}

/// The characters from `from` up to, not with, `to`.
pub fn text_of(cs: &Vec<char>, from: usize, to: usize) -> (r: String)
    requires
        from <= to <= cs@.len(),
    ensures
        r@ == cs@.subrange(from as int, to as int),
{
    let mut out = String::new();
    let mut i: usize = from;
    while i < to
        invariant
            from <= i <= to <= cs@.len(),
            out@ == cs@.subrange(from as int, i as int),
        decreases to - i,
    {
        out.push(cs[i]);
        i = i + 1;
    }
    out
}

pub fn same(a: &str, b: &str) -> (r: bool)
    ensures
        r == (a@ == b@),
{
    a.to_owned() == b.to_owned()
}

pub fn joined2(a: &str, b: &str) -> (r: String)
    ensures
        r@ == a@ + b@,
{
    let mut out = a.to_owned();
    out.append(b);
    out
}

pub fn joined3(a: &str, b: &str, c: &str) -> (r: String)
    ensures
        r@ == a@ + b@ + c@,
{
    let mut out = a.to_owned();
    out.append(b);
    out.append(c);
    out
}

/// The position of the first `c` at or after `from`, or the length.
pub fn find_char(cs: &Vec<char>, c: char, from: usize) -> (r: usize)
    requires
        from <= cs@.len(),
    ensures
        from <= r <= cs@.len(),
        r - from == find(cs@.skip(from as int), c),
{
    let mut i: usize = from;
    while i < cs.len() && cs[i] != c
        invariant
            from <= i <= cs@.len(),
            forall|j: int| from <= j < i ==> cs@[j] != c,
        decreases cs@.len() - i,
    {
        i = i + 1;
    }
    proof {
        lemma_find_is(cs@.skip(from as int), c, i - from);
    }
    i
}

pub fn contains_char(s: &str, c: char) -> (r: bool)
    ensures
        r == s@.contains(c),
{
    let cs = chars_of(s);
    let i: usize = find_char(&cs, c, 0);
    proof {
        assert(cs@.skip(0) =~= cs@);
        lemma_find(cs@, c);
    }
    i < cs.len()
}

/// The position of the last `c`, if any.
pub fn rfind_char(cs: &Vec<char>, c: char) -> (r: Option<usize>)
    ensures
        match r {
            Some(i) => i < cs@.len() && i == rfind(cs@, c),
            None => rfind(cs@, c) == -1,
        },
{
    let mut i: usize = cs.len();
    proof {
        lemma_rfind(cs@, c);
    }
    while i > 0
        invariant
            i <= cs@.len(),
            forall|j: int| i <= j < cs@.len() ==> cs@[j] != c,
            -1 <= rfind(cs@, c) < cs@.len(),
            forall|j: int| rfind(cs@, c) < j < cs@.len() ==> cs@[j] != c,
            rfind(cs@, c) >= 0 ==> cs@[rfind(cs@, c)] == c,
        decreases i,
    {
        if cs[i - 1] == c {
            return Some(i - 1);
        }
        i = i - 1;
    }
    None
}

pub fn cut_once(s: &str, c: char) -> (r: Option<(String, String)>)
    ensures
        match r {
            Some(parts) => split_once(s@, c) == Some((parts.0@, parts.1@)),
            None => split_once(s@, c) is None,
        },
{
    let cs = chars_of(s);
    let i: usize = find_char(&cs, c, 0);
    proof {
        assert(cs@.skip(0) =~= cs@);
    }
    if i < cs.len() {
        let left = text_of(&cs, 0, i);
        let right = text_of(&cs, i + 1, cs.len());
        proof {
            assert(left@ =~= s@.take(i as int));
            assert(right@ =~= s@.skip(i + 1));
        }
        Some((left, right))
    } else {
        None
    }
}

pub fn rcut_once(s: &str, c: char) -> (r: Option<(String, String)>)
    ensures
        match r {
            Some(parts) => rsplit_once(s@, c) == Some((parts.0@, parts.1@)),
            None => rsplit_once(s@, c) is None,
        },
{
    let cs = chars_of(s);
    let end: usize = cs.len();
    match rfind_char(&cs, c) {
        Some(i) => {
            let left = text_of(&cs, 0, i);
            let right = text_of(&cs, i + 1, end);
            proof {
                assert(left@ =~= s@.take(i as int));
                assert(right@ =~= s@.skip(i + 1));
            }
            Some((left, right))
        },
        None => None,
    }
}

pub fn pieces(s: &str, c: char) -> (r: Vec<String>)
    ensures
        r.deep_view() == split(s@, c),
{
    let cs = chars_of(s);
    let mut out: Vec<String> = Vec::new();
    let mut pos: usize = 0;
    proof {
        assert(cs@.skip(0) =~= cs@);
        assert(out.deep_view() + split(cs@.skip(0), c) =~= split(cs@, c));
    }
    loop
        invariant
            pos <= cs@.len(),
            out.deep_view() + split(cs@.skip(pos as int), c) == split(cs@, c),
            cs@ == s@,
        decreases cs@.len() - pos,
    {
        let i: usize = find_char(&cs, c, pos);
        let part = text_of(&cs, pos, i);
        let ghost rest = cs@.skip(pos as int);
        let ghost before = out.deep_view();
        proof {
            assert(part@ =~= rest.take(i - pos));
        }
        let ghost added = part@;
        out.push(part);
        proof {
            assert(out.deep_view() =~= before.push(added));
        }
        if i < cs.len() {
            proof {
                assert(rest.skip(i - pos + 1) =~= cs@.skip(i + 1));
                assert(out.deep_view() + split(cs@.skip(i + 1), c) =~= before + split(rest, c));
            }
            pos = i + 1;
        } else {
            proof {
                assert(rest.take(i - pos) =~= rest);
                assert(out.deep_view() =~= before + split(rest, c));
            }
            return out;
        }
    }
}

pub fn joined(parts: &Vec<String>, separator: &str) -> (r: String)
    ensures
        r@ == join(parts.deep_view(), separator@),
{
    let mut out = String::new();
    let mut i: usize = 0;
    while i < parts.len()
        invariant
            i <= parts@.len(),
            out@ == join(parts.deep_view().take(i as int), separator@),
        decreases parts@.len() - i,
    {
        if i > 0 {
            out.append(separator);
        }
        out.append(parts[i].as_str());
        proof {
            assert(parts.deep_view().take(i + 1).drop_last() =~= parts.deep_view().take(i as int));
            assert(parts.deep_view().take(i + 1).last() == parts@[i as int]@);
        }
        i = i + 1;
    }
    proof {
        assert(parts.deep_view().take(i as int) =~= parts.deep_view());
    }
    out
}

fn begins_at(cs: &Vec<char>, at: usize, prefix: &Vec<char>) -> (r: bool)
    requires
        at <= cs@.len(),
    ensures
        r == starts_with(cs@.skip(at as int), prefix@),
{
    let end: usize = cs.len();
    if prefix.len() > end - at {
        return false;
    }
    let mut i: usize = 0;
    while i < prefix.len()
        invariant
            i <= prefix@.len() <= cs@.len() - at,
            at <= cs@.len(),
            end == cs@.len(),
            forall|j: int| 0 <= j < i ==> cs@[at + j] == prefix@[j],
        decreases prefix@.len() - i,
    {
        if cs[at + i] != prefix[i] {
            proof {
                assert(cs@.skip(at as int).take(prefix@.len() as int)[i as int] == cs@[at + i]);
            }
            return false;
        }
        i = i + 1;
    }
    proof {
        assert(cs@.skip(at as int).take(prefix@.len() as int) =~= prefix@);
    }
    true
}

pub fn begins_with(s: &str, prefix: &str) -> (r: bool)
    ensures
        r == starts_with(s@, prefix@),
{
    let cs = chars_of(s);
    let ps = chars_of(prefix);
    proof {
        assert(cs@.skip(0) =~= cs@);
    }
    begins_at(&cs, 0, &ps)
}

pub fn without_prefix(s: &str, prefix: &str) -> (r: Option<String>)
    ensures
        match r {
            Some(rest) => strip_prefix(s@, prefix@) == Some(rest@),
            None => strip_prefix(s@, prefix@) is None,
        },
{
    let cs = chars_of(s);
    let ps = chars_of(prefix);
    proof {
        assert(cs@.skip(0) =~= cs@);
    }
    if begins_at(&cs, 0, &ps) {
        let rest = text_of(&cs, ps.len(), cs.len());
        proof {
            assert(rest@ =~= s@.skip(prefix@.len() as int));
        }
        Some(rest)
    } else {
        None
    }
}

pub fn without_prefixes(s: &str, prefix: &str) -> (r: String)
    ensures
        r@ == strip_all(s@, prefix@),
{
    let cs = chars_of(s);
    let ps = chars_of(prefix);
    let end: usize = cs.len();
    let mut pos: usize = 0;
    proof {
        assert(cs@.skip(0) =~= cs@);
    }
    while ps.len() > 0 && begins_at(&cs, pos, &ps)
        invariant
            pos <= cs@.len(),
            end == cs@.len(),
            ps@ == prefix@,
            strip_all(cs@.skip(pos as int), ps@) == strip_all(cs@, ps@),
        decreases cs@.len() - pos,
    {
        proof {
            assert(cs@.skip(pos as int).skip(ps@.len() as int) =~= cs@.skip(pos + ps@.len()));
        }
        pos = pos + ps.len();
    }
    let rest = text_of(&cs, pos, cs.len());
    proof {
        assert(rest@ =~= cs@.skip(pos as int));
    }
    rest
}

pub fn trimmed_start_char(s: &str, c: char) -> (r: String)
    ensures
        r@ == trim_start_char(s@, c),
{
    let cs = chars_of(s);
    let mut pos: usize = 0;
    proof {
        assert(cs@.skip(0) =~= cs@);
    }
    while pos < cs.len() && cs[pos] == c
        invariant
            pos <= cs@.len(),
            trim_start_char(cs@.skip(pos as int), c) == trim_start_char(cs@, c),
        decreases cs@.len() - pos,
    {
        proof {
            assert(cs@.skip(pos as int).drop_first() =~= cs@.skip(pos + 1));
        }
        pos = pos + 1;
    }
    let rest = text_of(&cs, pos, cs.len());
    proof {
        assert(rest@ =~= cs@.skip(pos as int));
    }
    rest
}

pub fn trimmed_end_char(s: &str, c: char) -> (r: String)
    ensures
        r@ == trim_end_char(s@, c),
{
    let cs = chars_of(s);
    let mut end: usize = cs.len();
    proof {
        assert(cs@.take(end as int) =~= cs@);
    }
    while end > 0 && cs[end - 1] == c
        invariant
            end <= cs@.len(),
            trim_end_char(cs@.take(end as int), c) == trim_end_char(cs@, c),
        decreases end,
    {
        proof {
            assert(cs@.take(end as int).drop_last() =~= cs@.take(end - 1));
        }
        end = end - 1;
    }
    let rest = text_of(&cs, 0, end);
    proof {
        assert(rest@ =~= cs@.take(end as int));
    }
    rest
}

pub fn space(c: char) -> (r: bool)
    ensures
        r == is_space(c),
{
    ('\u{9}' <= c && c <= '\u{d}') || c == ' ' || c == '\u{85}' || c == '\u{a0}' || c == '\u{1680}'
        || ('\u{2000}' <= c && c <= '\u{200a}') || c == '\u{2028}' || c == '\u{2029}'
        || c == '\u{202f}' || c == '\u{205f}' || c == '\u{3000}'
}

pub fn trimmed(s: &str) -> (r: String)
    ensures
        r@ == trim(s@),
{
    let cs = chars_of(s);
    let mut pos: usize = 0;
    proof {
        assert(cs@.skip(0) =~= cs@);
    }
    while pos < cs.len() && space(cs[pos])
        invariant
            pos <= cs@.len(),
            trim_start(cs@.skip(pos as int)) == trim_start(cs@),
        decreases cs@.len() - pos,
    {
        proof {
            assert(cs@.skip(pos as int).drop_first() =~= cs@.skip(pos + 1));
        }
        pos = pos + 1;
    }
    let mut end: usize = cs.len();
    let ghost rest = cs@.skip(pos as int);
    proof {
        assert(rest.take(end - pos) =~= rest);
    }
    while end > pos && space(cs[end - 1])
        invariant
            pos <= end <= cs@.len(),
            rest == cs@.skip(pos as int),
            trim_end(rest.take(end - pos)) == trim_end(rest),
        decreases end,
    {
        proof {
            assert(rest.take(end - pos).drop_last() =~= rest.take(end - pos - 1));
            assert(rest.take(end - pos).last() == cs@[end - 1]);
        }
        end = end - 1;
    }
    proof {
        assert(end > pos ==> rest.take(end - pos).last() == cs@[end - 1]);
        assert(cs@.subrange(pos as int, end as int) =~= rest.take(end - pos));
    }
    text_of(&cs, pos, end)
}

/// Whether nothing but white space stands in `s`.
pub fn blank(s: &str) -> (r: bool)
    ensures
        r == (trim(s@).len() == 0),
{
    trimmed(s).as_str().unicode_len() == 0
}

pub fn word_list(s: &str) -> (r: Vec<String>)
    ensures
        r.deep_view() == words(s@),
{
    let cs = chars_of(s);
    let mut out: Vec<String> = Vec::new();
    let mut pos: usize = 0;
    proof {
        assert(cs@.skip(0) =~= cs@);
        assert(out.deep_view() + words(cs@.skip(0)) =~= words(cs@));
    }
    while pos < cs.len()
        invariant
            pos <= cs@.len(),
            cs@ == s@,
            out.deep_view() + words(cs@.skip(pos as int)) == words(cs@),
        decreases cs@.len() - pos,
    {
        let ghost rest = cs@.skip(pos as int);
        if space(cs[pos]) {
            proof {
                assert(rest.drop_first() =~= cs@.skip(pos + 1));
            }
            pos = pos + 1;
        } else {
            let mut i: usize = pos;
            while i < cs.len() && !space(cs[i])
                invariant
                    pos <= i <= cs@.len(),
                    forall|j: int| pos <= j < i ==> !is_space(cs@[j]),
                decreases cs@.len() - i,
            {
                i = i + 1;
            }
            let word = text_of(&cs, pos, i);
            let ghost before = out.deep_view();
            proof {
                lemma_word_len(rest);
                assert(word_len(rest) == i - pos) by {
                    if word_len(rest) < i - pos {
                        assert(rest[word_len(rest)] == cs@[pos + word_len(rest)]);
                    } else if word_len(rest) > i - pos {
                        assert(rest[i - pos] == cs@[i as int]);
                    }
                }
                assert(word@ =~= rest.take(i - pos));
                assert(rest.skip(i - pos) =~= cs@.skip(i as int));
            }
            let ghost added = word@;
            out.push(word);
            proof {
                assert(out.deep_view() =~= before.push(added));
            }
            proof {
                assert(out.deep_view() + words(cs@.skip(i as int)) =~= before + words(rest));
            }
            pos = i;
        }
    }
    proof {
        assert(out.deep_view() + words(cs@.skip(pos as int)) =~= out.deep_view());
    }
    out
}

pub fn line_list(s: &str) -> (r: Vec<String>)
    ensures
        r.deep_view() == lines(s@),
{
    let cs = chars_of(s);
    let mut out: Vec<String> = Vec::new();
    let mut pos: usize = 0;
    proof {
        assert(cs@.skip(0) =~= cs@);
        assert(out.deep_view() + lines(cs@.skip(0)) =~= lines(cs@));
    }
    while pos < cs.len()
        invariant
            pos <= cs@.len(),
            cs@ == s@,
            out.deep_view() + lines(cs@.skip(pos as int)) == lines(cs@),
        decreases cs@.len() - pos,
    {
        let i: usize = find_char(&cs, '\n', pos);
        let ghost rest = cs@.skip(pos as int);
        let ghost before = out.deep_view();
        if i < cs.len() {
            let end: usize = if i > pos && cs[i - 1] == '\r' {
                i - 1
            } else {
                i
            };
            let line = text_of(&cs, pos, end);
            proof {
                if i > pos {
                    assert(rest.take(i - pos).last() == cs@[i - 1]);
                }
                assert(line@ =~= without_return(rest.take(i - pos)));
                assert(rest.skip(i - pos + 1) =~= cs@.skip(i + 1));
            }
            let ghost added = line@;
            out.push(line);
            proof {
                assert(out.deep_view() =~= before.push(added));
            }
            proof {
                assert(out.deep_view() + lines(cs@.skip(i + 1)) =~= before + lines(rest));
            }
            pos = i + 1;
        } else {
            let line = text_of(&cs, pos, i);
            proof {
                assert(line@ =~= rest);
            }
            let ghost added = line@;
            out.push(line);
            proof {
                assert(out.deep_view() =~= before.push(added));
            }
            proof {
                assert(cs@.skip(i as int) =~= Seq::<char>::empty());
                assert(out.deep_view() + lines(cs@.skip(i as int)) =~= before + lines(rest));
            }
            pos = i;
        }
    }
    proof {
        assert(out.deep_view() + lines(cs@.skip(pos as int)) =~= out.deep_view());
    }
    out
}

pub fn decimal_text(n: u64) -> (r: String)
    ensures
        r@ == decimal(n as nat),
    decreases n,
{
    let mut out = if n < 10 {
        String::new()
    } else {
        decimal_text(n / 10)
    };
    let digit: u8 = 48 + (n % 10) as u8;
    out.push(digit as char);
    proof {
        assert(digit as char == ('0' as u32 + n % 10) as char);
        if n < 10 {
            assert(out@ =~= seq![digit as char]);
        }
    }
    out
}

/// The lines that hold something, without the white space around it.
pub open spec fn content(parts: Seq<Seq<char>>) -> Seq<Seq<char>>
    decreases parts.len(),
{
    if parts.len() == 0 {
        Seq::empty()
    } else if trim(parts.last()).len() == 0 {
        content(parts.drop_last())
    } else {
        content(parts.drop_last()).push(trim(parts.last()))
    }
}

pub fn content_lines(s: &str) -> (r: Vec<String>)
    ensures
        r.deep_view() == content(lines(s@)),
{
    let all = line_list(s);
    let ghost parts = all.deep_view();
    let mut out: Vec<String> = Vec::new();
    let mut i: usize = 0;
    proof {
        assert(out.deep_view() =~= content(parts.take(0)));
    }
    while i < all.len()
        invariant
            i <= all@.len(),
            parts == all.deep_view(),
            out.deep_view() == content(parts.take(i as int)),
        decreases all@.len() - i,
    {
        let line = trimmed(all[i].as_str());
        let ghost before = out.deep_view();
        proof {
            assert(parts.take(i + 1).drop_last() =~= parts.take(i as int));
            assert(parts.take(i + 1).last() == all@[i as int]@);
        }
        if line.as_str().unicode_len() > 0 {
            let ghost added = line@;
            out.push(line);
            proof {
                assert(out.deep_view() =~= before.push(added));
            }
        }
        i = i + 1;
    }
    proof {
        assert(parts.take(i as int) =~= parts);
    }
    out
}

/// A list of texts.
pub fn list_of(parts: &[&str]) -> (r: Vec<String>)
    ensures
        r.deep_view() == parts@.map_values(|p: &str| p@),
{
    let mut out: Vec<String> = Vec::new();
    let mut i: usize = 0;
    while i < parts.len()
        invariant
            i <= parts@.len(),
            out@.len() == i,
            forall|j: int| 0 <= j < i ==> out@[j]@ == parts@[j]@,
        decreases parts@.len() - i,
    {
        out.push(parts[i].to_owned());
        i = i + 1;
    }
    proof {
        assert(out.deep_view() =~= parts@.map_values(|p: &str| p@));
    }
    out
}

/// Puts the second list behind the first.
pub fn extend(list: &mut Vec<String>, more: &Vec<String>)
    ensures
        final(list).deep_view() == old(list).deep_view() + more.deep_view(),
{
    let ghost was = list.deep_view();
    let mut i: usize = 0;
    proof {
        assert(was + more.deep_view().take(0) =~= was);
    }
    while i < more.len()
        invariant
            i <= more@.len(),
            list.deep_view() == was + more.deep_view().take(i as int),
        decreases more@.len() - i,
    {
        let ghost before = list.deep_view();
        list.push(more[i].clone());
        proof {
            assert(list.deep_view() =~= before.push(more@[i as int]@));
            assert(was + more.deep_view().take(i + 1) =~= (was + more.deep_view().take(
                i as int,
            )).push(more@[i as int]@));
        }
        i = i + 1;
    }
    proof {
        assert(more.deep_view().take(i as int) =~= more.deep_view());
    }
}

pub open spec fn is_hex_digit(c: char) -> bool {
    '0' <= c <= '9' || 'a' <= c <= 'f' || 'A' <= c <= 'F'
}

pub open spec fn all_hex(s: Seq<char>) -> bool {
    forall|i: int| 0 <= i < s.len() ==> is_hex_digit(#[trigger] s[i])
}

/// The lower-case form of an ASCII letter; every other character stays as it is.
pub open spec fn ascii_lower(c: char) -> char {
    if 'A' <= c <= 'Z' {
        (c as u32 + 32) as char
    } else {
        c
    }
}

pub open spec fn lowercase(s: Seq<char>) -> Seq<char> {
    s.map_values(|c: char| ascii_lower(c))
}

pub fn hex_only(s: &str) -> (r: bool)
    ensures
        r == all_hex(s@),
{
    let cs = chars_of(s);
    let mut i: usize = 0;
    while i < cs.len()
        invariant
            i <= cs@.len(),
            cs@ == s@,
            forall|j: int| 0 <= j < i ==> is_hex_digit(#[trigger] s@[j]),
        decreases cs@.len() - i,
    {
        let c = cs[i];
        if !(('0' <= c && c <= '9') || ('a' <= c && c <= 'f') || ('A' <= c && c <= 'F')) {
            proof {
                assert(!is_hex_digit(s@[i as int]));
            }
            return false;
        }
        i = i + 1;
    }
    true
}

fn lower(c: char) -> (r: char)
    ensures
        r == ascii_lower(c),
{
    if 'A' <= c && c <= 'Z' {
        let code: u8 = c as u8;
        (code + 32) as char
    } else {
        c
    }
}

pub fn lowered(s: &str) -> (r: String)
    ensures
        r@ == lowercase(s@),
{
    let cs = chars_of(s);
    let mut out = String::new();
    let mut i: usize = 0;
    proof {
        assert(out@ =~= lowercase(s@.take(0)));
    }
    while i < cs.len()
        invariant
            i <= cs@.len(),
            cs@ == s@,
            out@ == lowercase(s@.take(i as int)),
        decreases cs@.len() - i,
    {
        out.push(lower(cs[i]));
        proof {
            assert(lowercase(s@.take(i + 1)) =~= lowercase(s@.take(i as int)).push(
                ascii_lower(s@[i as int]),
            ));
        }
        i = i + 1;
    }
    proof {
        assert(s@.take(i as int) =~= s@);
    }
    out
}

} // verus!
