//! Text primitives shared by the stores: characters, words, ordering and joining.

use vstd::prelude::*;
use vstd::string::*;

verus! {

/// Whether `c` counts as white space, as `char::is_whitespace` judges it.
pub uninterp spec fn whitespace(c: char) -> bool;

/// The lower-case form of `s`, as `str::to_lowercase` computes it.
pub uninterp spec fn lowercase(s: Seq<char>) -> Seq<char>;

/// Calls `char::is_whitespace`. The contract only names the answer: it is the
/// same for the same character, and nothing else is claimed of it here.
#[verifier::external_body]
pub(crate) fn char_is_whitespace(c: char) -> (b: bool)
    ensures
        b == whitespace(c),
{
    c.is_whitespace()
}

/// Calls `str::to_lowercase`. The contract only names the result: it depends on
/// the text alone.
#[verifier::external_body]
pub(crate) fn to_lowercase(s: &str) -> (lower: String)
    ensures
        lower@ == lowercase(s@),
{
    s.to_lowercase()
}

/// Calls `String::from_iter` on the characters of `chars`: the string holds
/// exactly these characters, in this order.
#[verifier::external_body]
pub(crate) fn string_from_chars(chars: &Vec<char>) -> (s: String)
    ensures
        s@ == chars@,
{
    String::from_iter(chars.iter())
}

/// The characters of `text`, in order.
pub fn chars_of(text: &str) -> (chars: Vec<char>)
    ensures
        chars@ == text@,
{
    let mut chars: Vec<char> = Vec::new();
    for c in it: text.chars()
        invariant
            chars@ == text@.take(it.index() as int),
            it.seq() == text@,
    {
        chars.push(c);
    }
    chars
}

/// The words of `s`: its maximal runs of characters that are not white space,
/// from left to right. A white-space character ends the word before it; any
/// other character extends the word it follows or starts a new one.
pub open spec fn words(s: Seq<char>) -> Seq<Seq<char>>
    decreases s.len(),
{
    if s.len() == 0 {
        Seq::empty()
    } else {
        let before = words(s.drop_last());
        if whitespace(s.last()) {
            before
        } else if s.len() >= 2 && !whitespace(s[s.len() - 2]) {
            before.drop_last().push(before.last().push(s.last()))
        } else {
            before.push(seq![s.last()])
        }
    }
}

/// The view of a list of character vectors.
pub open spec fn lines_view(v: Seq<Vec<char>>) -> Seq<Seq<char>> {
    Seq::new(v.len(), |i: int| v[i]@)
}

/// The view of a list of strings.
pub open spec fn strings_view(v: Seq<String>) -> Seq<Seq<char>> {
    Seq::new(v.len(), |i: int| v[i]@)
}

/// No word is empty, and no word holds white space.
pub proof fn lemma_words_are_runs(s: Seq<char>)
    ensures
        forall|i: int| 0 <= i < words(s).len() ==> (#[trigger] words(s)[i]).len() > 0,
        forall|i: int, j: int|
            0 <= i < words(s).len() && 0 <= j < words(s)[i].len() ==> !whitespace(
                #[trigger] words(s)[i][j],
            ),
        s.len() > 0 && !whitespace(s.last()) ==> words(s).len() > 0,
    decreases s.len(),
{
    if s.len() > 0 {
        let before = words(s.drop_last());
        lemma_words_are_runs(s.drop_last());
        if !whitespace(s.last()) {
            if s.len() >= 2 && !whitespace(s[s.len() - 2]) {
                assert(s.drop_last().last() == s[s.len() - 2]);
                let grown = before.last().push(s.last());
                assert forall|i: int, j: int|
                    0 <= i < words(s).len() && 0 <= j < words(s)[i].len() implies !whitespace(
                    #[trigger] words(s)[i][j],
                ) by {
                    if i < before.len() - 1 {
                        assert(words(s)[i] == before[i]);
                    } else if j < before.last().len() {
                        assert(grown[j] == before[before.len() - 1][j]);
                    }
                }
                assert forall|i: int| 0 <= i < words(s).len() implies (#[trigger] words(s)[i]).len()
                    > 0 by {
                    if i < before.len() - 1 {
                        assert(words(s)[i] == before[i]);
                    }
                }
            } else {
                assert forall|i: int, j: int|
                    0 <= i < words(s).len() && 0 <= j < words(s)[i].len() implies !whitespace(
                    #[trigger] words(s)[i][j],
                ) by {
                    if i < before.len() {
                        assert(words(s)[i] == before[i]);
                    }
                }
                assert forall|i: int| 0 <= i < words(s).len() implies (#[trigger] words(s)[i]).len()
                    > 0 by {
                    if i < before.len() {
                        assert(words(s)[i] == before[i]);
                    }
                }
            }
        }
    }
}

/// Splits `chars` into its words.
pub fn split_chars(chars: &Vec<char>) -> (out: Vec<Vec<char>>)
    ensures
        lines_view(out@) == words(chars@),
{
    let mut out: Vec<Vec<char>> = Vec::new();
    let mut current: Vec<char> = Vec::new();
    let mut i: usize = 0;
    while i < chars.len()
        invariant
            i <= chars.len(),
            current.len() > 0 ==> i > 0 && !whitespace(chars@[i - 1]),
            current.len() == 0 ==> i == 0 || whitespace(chars@[i - 1]),
            words(chars@.take(i as int)) == if current.len() > 0 {
                lines_view(out@).push(current@)
            } else {
                lines_view(out@)
            },
        decreases chars.len() - i,
    {
        let c = chars[i];
        let ghost prefix = chars@.take(i as int);
        let ghost next = chars@.take(i + 1);
        proof {
            assert(next.drop_last() == prefix);
            assert(next.last() == c);
            if i > 0 {
                assert(next[next.len() - 2] == chars@[i - 1]);
            }
        }
        if char_is_whitespace(c) {
            if current.len() > 0 {
                let ghost before = lines_view(out@);
                out.push(current);
                current = Vec::new();
                assert(lines_view(out@) == before.push(out@.last()@));
            }
        } else {
            let ghost old_current = current@;
            current.push(c);
            proof {
                if old_current.len() > 0 {
                    let w = lines_view(out@).push(old_current);
                    assert(w.drop_last() == lines_view(out@));
                    assert(w.last() == old_current);
                } else {
                    assert(current@ == seq![c]);
                }
            }
        }
        i += 1;
    }
    assert(chars@.take(i as int) == chars@);
    if current.len() > 0 {
        let ghost before = lines_view(out@);
        out.push(current);
        assert(lines_view(out@) == before.push(out@.last()@));
    }
    out
}

/// Whether `list` holds the text `wanted`.
pub fn holds_text(list: &Vec<String>, wanted: &String) -> (found: bool)
    ensures
        found == strings_view(list@).contains(wanted@),
{
    let ghost all = strings_view(list@);
    for i in 0..list.len()
        invariant
            all == strings_view(list@),
            forall|j: int| 0 <= j < i ==> all[j] != wanted@,
    {
        if list[i] == *wanted {
            assert(all[i as int] == wanted@);
            return true;
        }
    }
    false
}

/// Splits `text` into its words.
pub fn split_words(text: &str) -> (out: Vec<String>)
    ensures
        strings_view(out@) == words(text@),
{
    let chars = chars_of(text);
    let pieces = split_chars(&chars);
    let mut out: Vec<String> = Vec::new();
    for k in 0..pieces.len()
        invariant
            out@.len() == k,
            forall|j: int| 0 <= j < k ==> (#[trigger] out@[j])@ == pieces@[j]@,
    {
        out.push(string_from_chars(&pieces[k]));
    }
    assert(strings_view(out@) =~= lines_view(pieces@));
    out
}

/// `s` without the white space at its end.
pub open spec fn trim_end(s: Seq<char>) -> Seq<char>
    decreases s.len(),
{
    if s.len() > 0 && whitespace(s.last()) {
        trim_end(s.drop_last())
    } else {
        s
    }
}

/// `s` without the white space at its start.
pub open spec fn trim_start(s: Seq<char>) -> Seq<char>
    decreases s.len(),
{
    if s.len() > 0 && whitespace(s[0]) {
        trim_start(s.drop_first())
    } else {
        s
    }
}

/// `s` without the white space at its start and end.
pub open spec fn trimmed(s: Seq<char>) -> Seq<char> {
    trim_start(trim_end(s))
}

/// `chars` without the white space at its start and end.
pub fn trim_chars(chars: &Vec<char>) -> (out: Vec<char>)
    ensures
        out@ == trimmed(chars@),
{
    let ghost s = chars@;
    let mut end: usize = chars.len();
    assert(s.take(end as int) == s);
    while end > 0 && char_is_whitespace(chars[end - 1])
        invariant
            end <= chars.len(),
            s == chars@,
            trim_end(s) == trim_end(s.take(end as int)),
        decreases end,
    {
        assert(s.take(end as int).drop_last() == s.take(end - 1));
        end -= 1;
    }
    assert(trim_end(s) == s.take(end as int));
    let mut start: usize = 0;
    assert(s.subrange(0, end as int) == s.take(end as int));
    while start < end && char_is_whitespace(chars[start])
        invariant
            start <= end <= chars.len(),
            s == chars@,
            trimmed(s) == trim_start(s.subrange(start as int, end as int)),
        decreases end - start,
    {
        assert(s.subrange(start as int, end as int).drop_first() == s.subrange(
            start + 1,
            end as int,
        ));
        start += 1;
    }
    proof {
        let rest = s.subrange(start as int, end as int);
        if start < end {
            assert(rest[0] == chars@[start as int]);
        }
        assert(trim_start(rest) == rest);
    }
    let mut out: Vec<char> = Vec::new();
    for k in start..end
        invariant
            start <= end <= chars.len(),
            s == chars@,
            out@ == s.subrange(start as int, k as int),
    {
        out.push(chars[k]);
        assert(s.subrange(start as int, k + 1) == s.subrange(start as int, k as int).push(
            s[k as int],
        ));
    }
    out
}

/// Whether `s` begins with `p`.
pub open spec fn starts_with(s: Seq<char>, p: Seq<char>) -> bool {
    p.len() <= s.len() && s.take(p.len() as int) == p
}

/// Whether `s` ends with `p`.
pub open spec fn ends_with(s: Seq<char>, p: Seq<char>) -> bool {
    p.len() <= s.len() && s.skip(s.len() - p.len()) == p
}

/// `s` without the copies of `p` that it begins with.
pub open spec fn without_leading(s: Seq<char>, p: Seq<char>) -> Seq<char>
    decreases s.len(),
{
    if p.len() > 0 && starts_with(s, p) {
        without_leading(s.skip(p.len() as int), p)
    } else {
        s
    }
}

/// `s` without the copies of `p` that it ends with.
pub open spec fn without_trailing(s: Seq<char>, p: Seq<char>) -> Seq<char>
    decreases s.len(),
{
    if p.len() > 0 && ends_with(s, p) {
        without_trailing(s.take(s.len() - p.len()), p)
    } else {
        s
    }
}

/// The first place at or behind `i` where `d` stands in `s`, or -1.
pub open spec fn find_from(s: Seq<char>, d: Seq<char>, i: nat) -> int
    decreases s.len() - i,
{
    if i + d.len() > s.len() {
        -1
    } else if s.subrange(i as int, (i + d.len()) as int) == d {
        i as int
    } else if i < s.len() {
        find_from(s, d, i + 1)
    } else {
        -1
    }
}

/// What stands before and behind the first `d` in `s`, where there is one.
pub open spec fn split_once(s: Seq<char>, d: Seq<char>) -> Option<(Seq<char>, Seq<char>)> {
    if find_from(s, d, 0) < 0 {
        None
    } else {
        Some((s.take(find_from(s, d, 0)), s.skip(find_from(s, d, 0) + d.len())))
    }
}

/// What stands before the first `d` in `s`; all of `s` where there is none.
pub open spec fn before_first(s: Seq<char>, d: Seq<char>) -> Seq<char> {
    match split_once(s, d) {
        Some(parts) => parts.0,
        None => s,
    }
}

/// The pieces into which the copies of `d` cut `s`, from left to right: one
/// piece more than there are copies. An empty `d` cuts nothing.
pub open spec fn split_by(s: Seq<char>, d: Seq<char>) -> Seq<Seq<char>>
    decreases s.len(),
{
    if d.len() == 0 {
        seq![s]
    } else {
        match split_once(s, d) {
            Some(parts) => if parts.1.len() < s.len() {
                seq![parts.0] + split_by(parts.1, d)
            } else {
                seq![s]
            },
            None => seq![s],
        }
    }
}

/// Where `d` is found in `s`, it stands within `s`.
pub proof fn lemma_find_from(s: Seq<char>, d: Seq<char>, i: nat)
    ensures
        find_from(s, d, i) < 0 || i <= find_from(s, d, i) <= s.len() - d.len(),
    decreases s.len() - i,
{
    if i + d.len() <= s.len() && s.subrange(i as int, (i + d.len()) as int) != d && i < s.len() {
        lemma_find_from(s, d, i + 1);
    }
}

/// What stands before the first `d` in `s`.
pub fn take_before(s: &Vec<char>, d: &str) -> (head: Vec<char>)
    ensures
        head@ == before_first(s@, d@),
{
    match split_at_first(s, d) {
        Some((head, _)) => head,
        None => slice_chars_all(s),
    }
}

/// A copy of `s`.
pub fn slice_chars_all(s: &Vec<char>) -> (copy: Vec<char>)
    ensures
        copy@ == s@,
{
    let copy = slice_chars(s, 0, s.len());
    assert(s@.subrange(0, s@.len() as int) == s@);
    copy
}

/// The pieces into which the copies of `d` cut `s`.
pub fn split_all(s: &Vec<char>, d: &str) -> (pieces: Vec<Vec<char>>)
    ensures
        lines_view(pieces@) == split_by(s@, d@),
{
    let mut pieces: Vec<Vec<char>> = Vec::new();
    let mut rest = slice_chars_all(s);
    if d.unicode_len() == 0 {
        pieces.push(rest);
        assert(lines_view(pieces@) =~= seq![s@]);
        return pieces;
    }
    assert(lines_view(pieces@) + split_by(rest@, d@) =~= split_by(s@, d@));
    loop
        invariant
            d@.len() > 0,
            lines_view(pieces@) + split_by(rest@, d@) == split_by(s@, d@),
        decreases rest.len(),
    {
        let ghost done = lines_view(pieces@);
        let ghost whole = rest@;
        match split_at_first(&rest, d) {
            Some((head, tail)) => {
                proof {
                    lemma_find_from(whole, d@, 0);
                    assert(tail@.len() < whole.len());
                }
                pieces.push(head);
                rest = tail;
                assert(lines_view(pieces@) + split_by(rest@, d@) =~= done + split_by(whole, d@));
            },
            None => {
                pieces.push(rest);
                assert(lines_view(pieces@) =~= done + split_by(whole, d@));
                return pieces;
            },
        }
    }
}

/// The first `limit` of `items`, or all where there are no more.
pub open spec fn first_of(items: Seq<Seq<char>>, limit: nat) -> Seq<Seq<char>> {
    if items.len() <= limit {
        items
    } else {
        items.take(limit as int)
    }
}

/// The first `limit` of `items`.
pub fn take_first(items: &Vec<String>, limit: usize) -> (first: Vec<String>)
    ensures
        strings_view(first@) == first_of(strings_view(items@), limit as nat),
{
    let n: usize = if items.len() <= limit {
        items.len()
    } else {
        limit
    };
    let mut first: Vec<String> = Vec::new();
    for i in 0..n
        invariant
            n <= items.len(),
            first@.len() == i,
            forall|j: int| 0 <= j < i ==> (#[trigger] first@[j])@ == items@[j]@,
    {
        first.push(items[i].clone());
    }
    assert(strings_view(first@) =~= first_of(strings_view(items@), limit as nat));
    first
}

/// Whether two characters are the same but for the case of an ASCII letter.
pub open spec fn same_letter(a: char, b: char) -> bool {
    ||| a == b
    ||| 'A' <= a <= 'Z' && b as u32 == a as u32 + 32
    ||| 'A' <= b <= 'Z' && a as u32 == b as u32 + 32
}

/// Whether two texts are the same but for the case of their ASCII letters.
pub open spec fn same_ignoring_ascii_case(a: Seq<char>, b: Seq<char>) -> bool {
    a.len() == b.len() && forall|i: int| 0 <= i < a.len() ==> same_letter(#[trigger] a[i], b[i])
}

/// Whether `s` begins with `p`, from the place `at` on.
pub fn stands_at(s: &Vec<char>, at: usize, p: &Vec<char>) -> (found: bool)
    requires
        at <= s.len(),
    ensures
        found == (at + p.len() <= s.len() && s@.subrange(at as int, at + p.len()) == p@),
{
    if p.len() > s.len() - at {
        return false;
    }
    for k in 0..p.len()
        invariant
            at + p.len() <= s.len(),
            forall|j: int| 0 <= j < k ==> s@[at + j] == p@[j],
    {
        if s[at + k] != p[k] {
            assert(s@.subrange(at as int, at + p.len())[k as int] == s@[at + k]);
            return false;
        }
    }
    assert(s@.subrange(at as int, at + p.len()) =~= p@);
    true
}

/// Whether `s` begins with `p`.
pub fn has_prefix(s: &Vec<char>, p: &str) -> (found: bool)
    ensures
        found == starts_with(s@, p@),
{
    let prefix = chars_of(p);
    let found = stands_at(s, 0, &prefix);
    proof {
        if p@.len() <= s@.len() {
            assert(s@.subrange(0, p@.len() as int) == s@.take(p@.len() as int));
        }
    }
    found
}

/// The part of `s` from `from` up to `to`.
pub fn slice_chars(s: &Vec<char>, from: usize, to: usize) -> (part: Vec<char>)
    requires
        from <= to <= s.len(),
    ensures
        part@ == s@.subrange(from as int, to as int),
{
    let mut part: Vec<char> = Vec::new();
    for k in from..to
        invariant
            from <= to <= s.len(),
            part@ == s@.subrange(from as int, k as int),
    {
        part.push(s[k]);
        assert(s@.subrange(from as int, k + 1) == s@.subrange(from as int, k as int).push(
            s@[k as int],
        ));
    }
    part
}

/// `s` without the copies of `p` that it begins with.
pub fn strip_leading(s: &Vec<char>, p: &str) -> (rest: Vec<char>)
    ensures
        rest@ == without_leading(s@, p@),
{
    let prefix = chars_of(p);
    let mut at: usize = 0;
    if prefix.len() > 0 {
        assert(s@.skip(0) == s@);
        while stands_at(s, at, &prefix)
            invariant
                at <= s.len(),
                prefix@ == p@,
                prefix.len() > 0,
                without_leading(s@, p@) == without_leading(s@.skip(at as int), p@),
            decreases s.len() - at,
        {
            proof {
                let rest = s@.skip(at as int);
                assert(rest.take(p@.len() as int) == s@.subrange(at as int, at + p@.len()));
                assert(rest.skip(p@.len() as int) == s@.skip(at + p@.len()));
            }
            at = at + prefix.len();
        }
        proof {
            let rest = s@.skip(at as int);
            if p@.len() <= rest.len() {
                assert(rest.take(p@.len() as int) == s@.subrange(at as int, at + p@.len()));
            }
        }
    }
    let rest = slice_chars(s, at, s.len());
    assert(s@.subrange(at as int, s@.len() as int) == s@.skip(at as int));
    assert(s@.skip(0) == s@);
    rest
}

/// `s` without the copies of `p` that it ends with.
pub fn strip_trailing(s: &Vec<char>, p: &str) -> (rest: Vec<char>)
    ensures
        rest@ == without_trailing(s@, p@),
{
    let suffix = chars_of(p);
    let mut end: usize = s.len();
    if suffix.len() > 0 {
        assert(s@.take(end as int) == s@);
        while end >= suffix.len() && stands_at(s, end - suffix.len(), &suffix)
            invariant
                end <= s.len(),
                suffix@ == p@,
                suffix.len() > 0,
                without_trailing(s@, p@) == without_trailing(s@.take(end as int), p@),
            decreases end,
        {
            proof {
                let head = s@.take(end as int);
                assert(head.skip(head.len() - p@.len()) == s@.subrange(end - p@.len(), end as int));
                assert(head.take(head.len() - p@.len()) == s@.take(end - p@.len()));
            }
            end = end - suffix.len();
        }
        proof {
            let head = s@.take(end as int);
            if p@.len() <= head.len() {
                assert(head.skip(head.len() - p@.len()) == s@.subrange(end - p@.len(), end as int));
            }
        }
    }
    let rest = slice_chars(s, 0, end);
    assert(s@.subrange(0, end as int) == s@.take(end as int));
    assert(s@.take(s@.len() as int) == s@);
    rest
}

/// What stands before and behind the first `d` in `s`, where there is one.
pub fn split_at_first(s: &Vec<char>, d: &str) -> (parts: Option<(Vec<char>, Vec<char>)>)
    ensures
        match parts {
            Some((before, after)) => split_once(s@, d@) == Some((before@, after@)),
            None => split_once(s@, d@) is None,
        },
{
    let delimiter = chars_of(d);
    let mut i: usize = 0;
    while delimiter.len() <= s.len() - i
        invariant
            i <= s.len(),
            delimiter@ == d@,
            find_from(s@, d@, 0) == find_from(s@, d@, i as nat),
        decreases s.len() - i,
    {
        if stands_at(s, i, &delimiter) {
            let before = slice_chars(s, 0, i);
            let after = slice_chars(s, i + delimiter.len(), s.len());
            proof {
                assert(s@.subrange(0, i as int) == s@.take(i as int));
                assert(s@.subrange(i + d@.len(), s@.len() as int) == s@.skip(i + d@.len()));
            }
            return Some((before, after));
        }
        if i == s.len() {
            return None;
        }
        i += 1;
    }
    None
}

/// Whether two texts are the same but for the case of their ASCII letters.
pub fn matches_ignoring_case(a: &Vec<char>, b: &str) -> (same: bool)
    ensures
        same == same_ignoring_ascii_case(a@, b@),
{
    let other = chars_of(b);
    if a.len() != other.len() {
        return false;
    }
    for i in 0..a.len()
        invariant
            a.len() == other.len(),
            other@ == b@,
            forall|j: int| 0 <= j < i ==> same_letter(#[trigger] a@[j], other@[j]),
    {
        let x = a[i];
        let y = other[i];
        let same = x == y || ('A' <= x && x <= 'Z' && y as u32 == x as u32 + 32) || ('A' <= y && y
            <= 'Z' && x as u32 == y as u32 + 32);
        if !same {
            assert(!same_letter(a@[i as int], b@[i as int]));
            return false;
        }
    }
    true
}

/// Whether `c` is a decimal digit.
pub open spec fn is_digit(c: char) -> bool {
    '0' <= c <= '9'
}

/// The number that the digit `c` writes.
pub open spec fn digit_value(c: char) -> int {
    c as u32 - 48
}

/// The number that the digits `s` write in decimal.
pub open spec fn digits_value(s: Seq<char>) -> int
    decreases s.len(),
{
    if s.len() == 0 {
        0
    } else {
        digits_value(s.drop_last()) * 10 + digit_value(s.last())
    }
}

/// Whether `s` holds decimal digits only.
pub open spec fn all_digits(s: Seq<char>) -> bool {
    forall|i: int| 0 <= i < s.len() ==> is_digit(#[trigger] s[i])
}

/// The number up to `max` that `s` writes: an optional plus sign and then
/// one or more decimal digits. `None` where `s` is not of that form, or
/// writes a number beyond `max`.
pub open spec fn parsed_unsigned(s: Seq<char>, max: int) -> Option<int> {
    let digits = if s.len() > 0 && s[0] == '+' {
        s.skip(1)
    } else {
        s
    };
    if digits.len() > 0 && all_digits(digits) && digits_value(digits) <= max {
        Some(digits_value(digits))
    } else {
        None
    }
}

/// Digits never write less than the digits they begin with.
proof fn lemma_digits_grow(s: Seq<char>, k: int)
    requires
        all_digits(s),
        0 <= k <= s.len(),
    ensures
        0 <= digits_value(s.take(k)) <= digits_value(s),
    decreases s.len() - k,
{
    if k == 0 {
        lemma_digits_nonnegative(s);
    } else if k < s.len() {
        lemma_digits_grow(s, k + 1);
        assert(s.take(k + 1).drop_last() == s.take(k));
        assert(is_digit(s[k]));
        assert(s.take(k + 1).last() == s[k]);
        lemma_digits_nonnegative(s.take(k));
    } else {
        assert(s.take(k) == s);
        lemma_digits_nonnegative(s);
    }
}

/// Digits write no negative number.
proof fn lemma_digits_nonnegative(s: Seq<char>)
    requires
        all_digits(s),
    ensures
        digits_value(s) >= 0,
    decreases s.len(),
{
    if s.len() > 0 {
        assert(is_digit(s[s.len() - 1]));
        assert forall|i: int| 0 <= i < s.drop_last().len() implies is_digit(
            #[trigger] s.drop_last()[i],
        ) by {
            assert(is_digit(s[i]));
        }
        lemma_digits_nonnegative(s.drop_last());
    }
}

/// Reads the number up to `max` that `s` writes.
pub fn parse_unsigned(s: &Vec<char>, max: u64) -> (value: Option<u64>)
    ensures
        match value {
            Some(v) => parsed_unsigned(s@, max as int) == Some(v as int),
            None => parsed_unsigned(s@, max as int) is None,
        },
{
    let start: usize = if s.len() > 0 && s[0] == '+' {
        1
    } else {
        0
    };
    let ghost digits = s@.skip(start as int);
    assert(s@.skip(0) == s@);
    if start == s.len() {
        return None;
    }
    let mut value: u64 = 0;
    for i in start..s.len()
        invariant
            start <= s.len(),
            start < s.len(),
            digits == s@.skip(start as int),
            digits == if s@.len() > 0 && s@[0] == '+' {
                s@.skip(1)
            } else {
                s@
            },
            all_digits(digits.take(i - start)),
            value == digits_value(digits.take(i - start)),
            value <= max,
    {
        let c = s[i];
        proof {
            assert(digits.take(i + 1 - start).drop_last() == digits.take(i - start));
            assert(digits.take(i + 1 - start).last() == c);
            assert(digits[i - start] == c);
        }
        if !('0' <= c && c <= '9') {
            return None;
        }
        let digit: u128 = (c as u32 - 48) as u128;
        let next: u128 = value as u128 * 10 + digit;
        proof {
            assert forall|j: int| 0 <= j < i + 1 - start implies is_digit(
                #[trigger] digits.take(i + 1 - start)[j],
            ) by {
                if j < i - start {
                    assert(is_digit(digits.take(i - start)[j]));
                }
            }
        }
        if next > max as u128 {
            proof {
                if all_digits(digits) {
                    lemma_digits_grow(digits, i + 1 - start);
                }
            }
            return None;
        }
        value = next as u64;
    }
    assert(digits.take(s.len() - start) == digits);
    Some(value)
}

/// Whether `a` comes strictly before `b` in dictionary order by code point:
/// the order in which strings sort.
pub open spec fn precedes(a: Seq<char>, b: Seq<char>) -> bool
    decreases a.len(),
{
    if b.len() == 0 {
        false
    } else if a.len() == 0 {
        true
    } else if a[0] != b[0] {
        a[0] < b[0]
    } else {
        precedes(a.drop_first(), b.drop_first())
    }
}

/// No text comes before itself.
pub proof fn lemma_precedes_irreflexive(a: Seq<char>)
    ensures
        !precedes(a, a),
    decreases a.len(),
{
    if a.len() > 0 {
        lemma_precedes_irreflexive(a.drop_first());
    }
}

/// Of two different texts, one comes before the other.
pub proof fn lemma_precedes_connected(a: Seq<char>, b: Seq<char>)
    ensures
        a == b || precedes(a, b) || precedes(b, a),
    decreases a.len(),
{
    if a.len() > 0 && b.len() > 0 && a[0] == b[0] {
        lemma_precedes_connected(a.drop_first(), b.drop_first());
        if a.drop_first() == b.drop_first() {
            assert(a =~= seq![a[0]] + a.drop_first());
            assert(b =~= seq![b[0]] + b.drop_first());
        }
    } else if a.len() == 0 && b.len() == 0 {
        assert(a =~= b);
    }
}

/// Two texts never come before each other.
pub proof fn lemma_precedes_asymmetric(a: Seq<char>, b: Seq<char>)
    requires
        precedes(a, b),
    ensures
        !precedes(b, a),
    decreases a.len(),
{
    if a.len() > 0 && b.len() > 0 && a[0] == b[0] {
        lemma_precedes_asymmetric(a.drop_first(), b.drop_first());
    }
}

/// Dictionary order is transitive.
pub proof fn lemma_precedes_transitive(a: Seq<char>, b: Seq<char>, c: Seq<char>)
    requires
        precedes(a, b),
        precedes(b, c),
    ensures
        precedes(a, c),
    decreases a.len(),
{
    if a.len() > 0 && b.len() > 0 && c.len() > 0 && a[0] == b[0] && b[0] == c[0] {
        lemma_precedes_transitive(a.drop_first(), b.drop_first(), c.drop_first());
    }
}

/// How one text stands to another in dictionary order.
#[derive(Clone, Copy, Debug, PartialEq, Eq, Structural)]
pub enum Rank {
    Before,
    Same,
    After,
}

/// Compares `a` with `b` in dictionary order.
pub fn rank_chars(a: &Vec<char>, b: &Vec<char>) -> (r: Rank)
    ensures
        r == Rank::Before <==> precedes(a@, b@),
        r == Rank::Same <==> a@ == b@,
        r == Rank::After <==> precedes(b@, a@),
{
    let mut i: usize = 0;
    proof {
        assert(a@.skip(0) == a@);
        assert(b@.skip(0) == b@);
    }
    while i < a.len() && i < b.len()
        invariant
            i <= a.len(),
            i <= b.len(),
            a@.take(i as int) == b@.take(i as int),
            precedes(a@, b@) == precedes(a@.skip(i as int), b@.skip(i as int)),
            precedes(b@, a@) == precedes(b@.skip(i as int), a@.skip(i as int)),
        decreases a.len() - i,
    {
        let x = a[i];
        let y = b[i];
        proof {
            assert(a@.skip(i as int)[0] == x);
            assert(b@.skip(i as int)[0] == y);
            assert(a@.skip(i as int).drop_first() == a@.skip(i + 1));
            assert(b@.skip(i as int).drop_first() == b@.skip(i + 1));
        }
        if x != y {
            proof {
                assert(a@.take(i + 1)[i as int] == x);
                assert(b@.take(i + 1)[i as int] == y);
                assert(a@[i as int] != b@[i as int]);
            }
            if x < y {
                proof {
                    lemma_precedes_asymmetric(a@.skip(i as int), b@.skip(i as int));
                }
                return Rank::Before;
            } else {
                proof {
                    lemma_precedes_asymmetric(b@.skip(i as int), a@.skip(i as int));
                }
                return Rank::After;
            }
        }
        proof {
            assert(a@.take(i + 1) =~= a@.take(i as int).push(x));
            assert(b@.take(i + 1) =~= b@.take(i as int).push(y));
        }
        i += 1;
    }
    proof {
        if i == a.len() {
            assert(a@.take(i as int) == a@);
            assert(a@.skip(i as int).len() == 0);
        }
        if i == b.len() {
            assert(b@.take(i as int) == b@);
            assert(b@.skip(i as int).len() == 0);
        }
        if a.len() != b.len() {
            assert(a@.len() != b@.len());
        }
    }
    if a.len() < b.len() {
        Rank::Before
    } else if a.len() > b.len() {
        Rank::After
    } else {
        Rank::Same
    }
}

/// Whether the texts of `s` stand in strictly rising dictionary order.
pub open spec fn strictly_ordered(s: Seq<Seq<char>>) -> bool {
    forall|i: int, j: int| 0 <= i < j < s.len() ==> precedes(#[trigger] s[i], #[trigger] s[j])
}

/// The ordered list `s` with `x` put in its place, unless `x` is in it already.
pub open spec fn insert_ordered(s: Seq<Seq<char>>, x: Seq<char>) -> Seq<Seq<char>>
    decreases s.len(),
{
    if s.len() == 0 {
        seq![x]
    } else if s.last() == x {
        s
    } else if precedes(s.last(), x) {
        s.push(x)
    } else {
        insert_ordered(s.drop_last(), x).push(s.last())
    }
}

/// The distinct texts of `s`, in dictionary order.
pub open spec fn ordered_set(s: Seq<Seq<char>>) -> Seq<Seq<char>>
    decreases s.len(),
{
    if s.len() == 0 {
        Seq::empty()
    } else {
        insert_ordered(ordered_set(s.drop_last()), s.last())
    }
}

/// Inserting into an ordered list keeps it ordered and adds exactly `x`.
pub proof fn lemma_insert_ordered(s: Seq<Seq<char>>, x: Seq<char>)
    requires
        strictly_ordered(s),
    ensures
        strictly_ordered(insert_ordered(s, x)),
        insert_ordered(s, x).contains(x),
        forall|t: Seq<char>| #[trigger] s.contains(t) ==> insert_ordered(s, x).contains(t),
        forall|t: Seq<char>| #[trigger]
            insert_ordered(s, x).contains(t) ==> s.contains(t) || t == x,
    decreases s.len(),
{
    let r = insert_ordered(s, x);
    if s.len() == 0 {
        assert(r[0] == x);
    } else if s.last() == x {
        assert(s[s.len() - 1] == x);
    } else if precedes(s.last(), x) {
        assert forall|i: int, j: int| 0 <= i < j < r.len() implies precedes(
            #[trigger] r[i],
            #[trigger] r[j],
        ) by {
            if j == s.len() && i < s.len() - 1 {
                assert(precedes(s[i], s[s.len() - 1]));
                lemma_precedes_transitive(s[i], s.last(), x);
            }
        }
        assert(r[s.len() as int] == x);
        assert forall|t: Seq<char>| r.contains(t) implies (s.contains(t) || t == x) by {
            let k = choose|k: int| 0 <= k < r.len() && r[k] == t;
            if k < s.len() {
                assert(s[k] == t);
            }
        }
        assert forall|t: Seq<char>| s.contains(t) implies r.contains(t) by {
            let k = choose|k: int| 0 <= k < s.len() && s[k] == t;
            assert(r[k] == t);
        }
    } else {
        let init = s.drop_last();
        let q = insert_ordered(init, x);
        assert forall|i: int, j: int| 0 <= i < j < init.len() implies precedes(
            #[trigger] init[i],
            #[trigger] init[j],
        ) by {
            assert(precedes(s[i], s[j]));
        }
        lemma_insert_ordered(init, x);
        lemma_precedes_connected(s.last(), x);
        assert(precedes(x, s.last()));
        assert forall|i: int, j: int| 0 <= i < j < r.len() implies precedes(
            #[trigger] r[i],
            #[trigger] r[j],
        ) by {
            if j == q.len() {
                assert(q.contains(q[i]));
                if q[i] != x {
                    assert(init.contains(q[i]));
                    let k = choose|k: int| 0 <= k < init.len() && init[k] == q[i];
                    assert(precedes(s[k], s[s.len() - 1]));
                }
            } else {
                assert(precedes(q[i], q[j]));
            }
        }
        assert forall|t: Seq<char>| r.contains(t) implies (s.contains(t) || t == x) by {
            let k = choose|k: int| 0 <= k < r.len() && r[k] == t;
            if k < q.len() {
                assert(q[k] == t);
                assert(q.contains(t));
                if t != x {
                    assert(init.contains(t));
                    let m = choose|m: int| 0 <= m < init.len() && init[m] == t;
                    assert(s[m] == t);
                }
            } else {
                assert(s[s.len() - 1] == t);
            }
        }
        assert forall|t: Seq<char>| (s.contains(t) || t == x) implies r.contains(t) by {
            if t == x {
                assert(q.contains(x));
                let m = choose|m: int| 0 <= m < q.len() && q[m] == x;
                assert(r[m] == t);
            } else {
                let k = choose|k: int| 0 <= k < s.len() && s[k] == t;
                if k < init.len() {
                    assert(init[k] == t);
                    assert(init.contains(t));
                    assert(q.contains(t));
                    let m = choose|m: int| 0 <= m < q.len() && q[m] == t;
                    assert(r[m] == t);
                } else {
                    assert(r[q.len() as int] == t);
                }
            }
        }
    }
}

/// The ordered set of `s` is in strictly rising order, so it holds nothing
/// twice, and it holds exactly the texts of `s`.
pub proof fn lemma_ordered_set(s: Seq<Seq<char>>)
    ensures
        strictly_ordered(ordered_set(s)),
        forall|t: Seq<char>| #[trigger] s.contains(t) ==> ordered_set(s).contains(t),
        forall|t: Seq<char>| #[trigger] ordered_set(s).contains(t) ==> s.contains(t),
    decreases s.len(),
{
    if s.len() > 0 {
        let init = s.drop_last();
        lemma_ordered_set(init);
        lemma_insert_ordered(ordered_set(init), s.last());
        assert forall|t: Seq<char>| #[trigger]
            ordered_set(s).contains(t) == s.contains(t) by {
            if s.contains(t) {
                let k = choose|k: int| 0 <= k < s.len() && s[k] == t;
                if k < init.len() {
                    assert(init[k] == t);
                    assert(init.contains(t));
                }
            }
            if init.contains(t) {
                let k = choose|k: int| 0 <= k < init.len() && init[k] == t;
                assert(s[k] == t);
            }
            if t == s.last() {
                assert(s[s.len() - 1] == t);
            }
        }
    }
}

/// Puts `x` in its place in the ordered list `v`, unless it is there already.
pub fn insert_in_order(v: &mut Vec<Vec<char>>, x: Vec<char>)
    ensures
        lines_view(final(v)@) == insert_ordered(lines_view(old(v)@), x@),
{
    let ghost all = lines_view(v@);
    let mut i: usize = v.len();
    proof {
        assert(all.take(i as int) == all);
        assert(all.skip(i as int) == Seq::<Seq<char>>::empty());
    }
    let mut placed = false;
    while i > 0 && !placed
        invariant
            i <= v.len(),
            v@ == old(v)@,
            all == lines_view(v@),
            insert_ordered(all, x@) == insert_ordered(all.take(i as int), x@) + all.skip(i as int),
            placed ==> i > 0 && precedes(v@[i - 1]@, x@),
        decreases i + if placed { 0int } else { 1int },
    {
        let ghost head = all.take(i as int);
        proof {
            assert(head.last() == v@[i - 1]@);
            assert(head.drop_last() == all.take(i - 1));
        }
        match rank_chars(&v[i - 1], &x) {
            Rank::Same => {
                assert(head + all.skip(i as int) == all);
                return ;
            },
            Rank::Before => {
                placed = true;
            },
            Rank::After => {
                proof {
                    lemma_precedes_asymmetric(x@, head.last());
                    lemma_precedes_irreflexive(x@);
                    assert(insert_ordered(head, x@) == insert_ordered(all.take(i - 1), x@).push(
                        head.last(),
                    ));
                    assert(seq![head.last()] + all.skip(i as int) == all.skip(i - 1));
                    assert(insert_ordered(all.take(i - 1), x@).push(head.last()) + all.skip(
                        i as int,
                    ) == insert_ordered(all.take(i - 1), x@) + all.skip(i - 1));
                }
                i -= 1;
            },
        }
    }
    proof {
        let head = all.take(i as int);
        if i > 0 {
            assert(head.last() == v@[i - 1]@);
            assert(precedes(head.last(), x@));
            lemma_precedes_irreflexive(x@);
        }
        assert(insert_ordered(head, x@) == head.push(x@));
    }
    v.insert(i, x);
    assert(lines_view(v@) == all.take(i as int).push(x@) + all.skip(i as int));
}

/// The character that writes the digit `d`.
pub open spec fn digit_char(d: int) -> char {
    if d == 0 {
        '0'
    } else if d == 1 {
        '1'
    } else if d == 2 {
        '2'
    } else if d == 3 {
        '3'
    } else if d == 4 {
        '4'
    } else if d == 5 {
        '5'
    } else if d == 6 {
        '6'
    } else if d == 7 {
        '7'
    } else if d == 8 {
        '8'
    } else {
        '9'
    }
}

/// The decimal numeral of `n`, without leading zeros.
pub open spec fn decimal(n: nat) -> Seq<char>
    decreases n,
{
    if n < 10 {
        seq![digit_char(n as int)]
    } else {
        decimal(n / 10).push(digit_char((n % 10) as int))
    }
}

/// The decimal numeral of `n`, with a minus sign before a negative one.
pub open spec fn signed_decimal(n: int) -> Seq<char> {
    if n < 0 {
        seq!['-'] + decimal((-n) as nat)
    } else {
        decimal(n as nat)
    }
}

fn digit_of(d: u8) -> (c: char)
    requires
        d < 10,
    ensures
        c == digit_char(d as int),
{
    if d == 0 {
        '0'
    } else if d == 1 {
        '1'
    } else if d == 2 {
        '2'
    } else if d == 3 {
        '3'
    } else if d == 4 {
        '4'
    } else if d == 5 {
        '5'
    } else if d == 6 {
        '6'
    } else if d == 7 {
        '7'
    } else if d == 8 {
        '8'
    } else {
        '9'
    }
}

/// Appends the decimal numeral of `n` to `out`.
pub fn push_decimal(out: &mut Vec<char>, n: u128)
    ensures
        final(out)@ == old(out)@ + decimal(n as nat),
    decreases n,
{
    if n >= 10 {
        push_decimal(out, n / 10);
    }
    out.push(digit_of((n % 10) as u8));
    assert(out@ == old(out)@ + decimal(n as nat));
}

/// The decimal numeral of `n` as a string.
pub fn decimal_string(n: u128) -> (s: String)
    ensures
        s@ == decimal(n as nat),
{
    let mut digits: Vec<char> = Vec::new();
    push_decimal(&mut digits, n);
    string_from_chars(&digits)
}

/// Appends the decimal numeral of `n` to `out`, signed when negative.
pub fn push_signed_decimal(out: &mut Vec<char>, n: i64)
    ensures
        final(out)@ == old(out)@ + signed_decimal(n as int),
{
    if n < 0 {
        out.push('-');
        let magnitude: u128 = (-(n as i128)) as u128;
        push_decimal(out, magnitude);
        assert(out@ == old(out)@ + (seq!['-'] + decimal((-n) as nat)));
    } else {
        push_decimal(out, n as u128);
    }
}

/// Appends the characters of `text` to `out`.
pub fn push_str(out: &mut Vec<char>, text: &str)
    ensures
        final(out)@ == old(out)@ + text@,
{
    for c in it: text.chars()
        invariant
            out@ == old(out)@ + text@.take(it.index() as int),
            it.seq() == text@,
    {
        out.push(c);
    }
}

/// The texts of `parts` written one after another with `sep` between them.
pub open spec fn join(parts: Seq<Seq<char>>, sep: Seq<char>) -> Seq<char>
    decreases parts.len(),
{
    if parts.len() == 0 {
        Seq::empty()
    } else if parts.len() == 1 {
        parts[0]
    } else {
        join(parts.drop_last(), sep) + sep + parts.last()
    }
}

/// Joins `parts` with `sep` between them.
pub fn join_strings(parts: &Vec<String>, sep: &str) -> (joined: String)
    ensures
        joined@ == join(strings_view(parts@), sep@),
{
    let mut joined = String::new();
    let ghost all = strings_view(parts@);
    for i in 0..parts.len()
        invariant
            all == strings_view(parts@),
            joined@ == join(all.take(i as int), sep@),
    {
        proof {
            assert(all.take(i + 1).drop_last() == all.take(i as int));
            assert(all.take(i + 1).last() == parts@[i as int]@);
        }
        if i > 0 {
            joined.append(sep);
        }
        joined.append(parts[i].as_str());
        proof {
            if i == 0 {
                assert(all.take(1)[0] == parts@[0]@);
                assert(joined@ == parts@[0]@);
            }
        }
    }
    assert(all.take(parts.len() as int) == all);
    joined
}

/// One exchange as text: the user's line, then the assistant's.
pub open spec fn exchange_text(user_input: Seq<char>, ai_response: Seq<char>) -> Seq<char> {
    "User: "@ + user_input + "\nAssistant: "@ + ai_response
}

/// Writes an exchange as two lines, the user's and the assistant's.
pub fn render_exchange(user_input: &str, ai_response: &str) -> (text: String)
    ensures
        text@ == exchange_text(user_input@, ai_response@),
{
    let mut text = String::from_str("User: ");
    text.append(user_input);
    text.append("\nAssistant: ");
    text.append(ai_response);
    text
}

} // verus!
