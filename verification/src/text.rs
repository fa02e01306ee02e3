//! Text as sequences of characters: decoding, trimming, slicing and comparing.

use vstd::prelude::*;
use vstd::utf8::{decode_utf8, valid_utf8};

verus! {

/// What `String::from_utf8_lossy` makes of a byte sequence.
pub uninterp spec fn utf8_lossy(bytes: Seq<u8>) -> Seq<char>;

/// `String::from_utf8_lossy`: the result depends on the bytes alone, and well-formed UTF-8 is
/// decoded exactly. How malformed bytes are replaced is not said.
#[verifier::external_body]
pub(crate) fn decode_lossy(bytes: &[u8]) -> (text: String)
    ensures
        text@ == utf8_lossy(bytes@),
        valid_utf8(bytes@) ==> text@ == decode_utf8(bytes@),
{
    String::from_utf8_lossy(bytes).into_owned()
}

/// `String::push`: appends one character.
pub assume_specification[ String::push ](text: &mut String, c: char)
    ensures
        final(text)@ == old(text)@.push(c),
;

/// The characters with the Unicode property `White_Space`.
pub open spec fn is_white_space(c: char) -> bool {
    let code = c as u32;
    ||| 0x9 <= code <= 0xd
    ||| code == 0x20
    ||| code == 0x85
    ||| code == 0xa0
    ||| code == 0x1680
    ||| 0x2000 <= code <= 0x200a
    ||| code == 0x2028
    ||| code == 0x2029
    ||| code == 0x202f
    ||| code == 0x205f
    ||| code == 0x3000
}

/// `text` without the copies of `c` at its end.
pub open spec fn trim_end_of(text: Seq<char>, c: char) -> Seq<char>
    decreases text.len(),
{
    if text.len() > 0 && text.last() == c {
        trim_end_of(text.drop_last(), c)
    } else {
        text
    }
}

/// `text` without the white space at its start.
pub open spec fn trim_start_white(text: Seq<char>) -> Seq<char>
    decreases text.len(),
{
    if text.len() > 0 && is_white_space(text.first()) {
        trim_start_white(text.drop_first())
    } else {
        text
    }
}

/// `text` without the white space at its end.
pub open spec fn trim_end_white(text: Seq<char>) -> Seq<char>
    decreases text.len(),
{
    if text.len() > 0 && is_white_space(text.last()) {
        trim_end_white(text.drop_last())
    } else {
        text
    }
}

/// `text` without the white space at either end.
pub open spec fn trim_white(text: Seq<char>) -> Seq<char> {
    trim_end_white(trim_start_white(text))
}

/// Whether `a` comes strictly before `b` when texts are ordered by code points.
pub open spec fn text_before(a: Seq<char>, b: Seq<char>) -> bool
    decreases a.len(),
{
    if b.len() == 0 {
        false
    } else if a.len() == 0 {
        true
    } else if a.first() == b.first() {
        text_before(a.drop_first(), b.drop_first())
    } else {
        (a.first() as int) < (b.first() as int)
    }
}

/// The view of an optional text.
pub open spec fn optional_text(text: Option<String>) -> Option<Seq<char>> {
    match text {
        Some(t) => Some(t@),
        None => None,
    }
}

/// Whether a character has the Unicode property `White_Space`.
pub fn white_space(c: char) -> (r: bool)
    ensures
        r == is_white_space(c),
{
    let code: u32 = c as u32;
    (0x9 <= code && code <= 0xd) || code == 0x20 || code == 0x85 || code == 0xa0 || code == 0x1680
        || (0x2000 <= code && code <= 0x200a) || code == 0x2028 || code == 0x2029 || code == 0x202f
        || code == 0x205f || code == 0x3000
}

/// The characters of a text.
pub fn chars_of(text: &str) -> (chars: Vec<char>)
    ensures
        chars@ == text@,
{
    let mut chars: Vec<char> = Vec::new();
    for c in it: text.chars()
        invariant
            it.seq() == text@,
            chars@ == text@.take(it.index() as int),
    {
        chars.push(c);
    }
    assert(text@.take(text@.len() as int) == text@);
    chars
}

/// The characters from `from` up to but not at `to`, as a text.
pub fn text_between(chars: &Vec<char>, from: usize, to: usize) -> (text: String)
    requires
        from <= to <= chars@.len(),
    ensures
        text@ == chars@.subrange(from as int, to as int),
{
    let mut text = String::new();
    let mut i: usize = from;
    while i < to
        invariant
            from <= i <= to <= chars@.len(),
            text@ == chars@.subrange(from as int, i as int),
        decreases to - i,
    {
        text.push(chars[i]);
        proof {
            assert(chars@.subrange(from as int, i as int).push(chars@[i as int]) == chars@.subrange(
                from as int,
                i + 1,
            ));
        }
        i = i + 1;
    }
    text
}

/// Where the text up to `end` ends once the copies of `c` at its end are taken off.
pub fn end_without(chars: &Vec<char>, end: usize, c: char) -> (r: usize)
    requires
        end <= chars@.len(),
    ensures
        r <= end,
        chars@.take(r as int) == trim_end_of(chars@.take(end as int), c),
{
    let mut r: usize = end;
    while r > 0 && chars[r - 1] == c
        invariant
            r <= end <= chars@.len(),
            trim_end_of(chars@.take(r as int), c) == trim_end_of(chars@.take(end as int), c),
        decreases r,
    {
        proof {
            assert(chars@.take(r as int).drop_last() == chars@.take(r - 1));
        }
        r = r - 1;
    }
    r
}

/// A text without the slashes at its end.
pub fn without_trailing_slashes(text: &str) -> (r: String)
    ensures
        r@ == trim_end_of(text@, '/'),
{
    let chars = chars_of(text);
    let end = end_without(&chars, chars.len(), '/');
    proof {
        assert(chars@.take(chars@.len() as int) == chars@);
        assert(chars@.subrange(0, end as int) == chars@.take(end as int));
    }
    text_between(&chars, 0, end)
}

/// The part of `chars` from `from` to `to` that is left when white space is taken off both ends.
pub fn trimmed_between(chars: &Vec<char>, from: usize, to: usize) -> (r: (usize, usize))
    requires
        from <= to <= chars@.len(),
    ensures
        from <= r.0 <= r.1 <= to,
        chars@.subrange(r.0 as int, r.1 as int) == trim_white(
            chars@.subrange(from as int, to as int),
        ),
{
    let ghost part = chars@.subrange(from as int, to as int);
    let mut start: usize = from;
    while start < to && white_space(chars[start])
        invariant
            from <= start <= to <= chars@.len(),
            trim_start_white(chars@.subrange(start as int, to as int)) == trim_start_white(part),
        decreases to - start,
    {
        proof {
            assert(chars@.subrange(start as int, to as int).drop_first() == chars@.subrange(
                start + 1,
                to as int,
            ));
        }
        start = start + 1;
    }
    assert(trim_start_white(part) == chars@.subrange(start as int, to as int));
    let mut end: usize = to;
    while end > start && white_space(chars[end - 1])
        invariant
            from <= start <= end <= to <= chars@.len(),
            trim_end_white(chars@.subrange(start as int, end as int)) == trim_white(part),
        decreases end,
    {
        proof {
            assert(chars@.subrange(start as int, end as int).drop_last() == chars@.subrange(
                start as int,
                end - 1,
            ));
        }
        end = end - 1;
    }
    (start, end)
}

/// Whether the first text comes strictly before the second, ordered by code points.
pub fn text_less(a: &str, b: &str) -> (r: bool)
    ensures
        r == text_before(a@, b@),
{
    let x = chars_of(a);
    let y = chars_of(b);
    let mut i: usize = 0;
    proof {
        assert(x@.skip(0) == x@);
        assert(y@.skip(0) == y@);
    }
    while i < x.len() && i < y.len() && x[i] == y[i]
        invariant
            i <= x@.len(),
            i <= y@.len(),
            text_before(x@.skip(i as int), y@.skip(i as int)) == text_before(x@, y@),
        decreases x@.len() - i,
    {
        proof {
            assert(x@.skip(i as int).drop_first() == x@.skip(i + 1));
            assert(y@.skip(i as int).drop_first() == y@.skip(i + 1));
        }
        i = i + 1;
    }
    if i >= y.len() {
        false
    } else if i >= x.len() {
        true
    } else {
        let c: char = x[i];
        let d: char = y[i];
        c < d
    }
}

/// Two texts one after the other.
pub fn joined(a: &str, b: &str) -> (r: String)
    ensures
        r@ == a@ + b@,
{
    a.to_owned().concat(b)
}

/// A copy of an optional text.
pub fn copy_optional(text: &Option<String>) -> (r: Option<String>)
    ensures
        r == *text,
{
    match text {
        Some(t) => Some(t.clone()),
        None => None,
    }
}

/// Whether an optional text is there and equals the given one.
pub fn optional_is(text: &Option<String>, other: &String) -> (r: bool)
    ensures
        r == (optional_text(*text) == Some(other@)),
{
    match text {
        Some(t) => *t == *other,
        None => false,
    }
}

/// Of two different texts one comes before the other, and not both do.
pub proof fn texts_are_ordered(a: Seq<char>, b: Seq<char>)
    ensures
        a != b ==> text_before(a, b) || text_before(b, a),
        !(text_before(a, b) && text_before(b, a)),
        a == b ==> !text_before(a, b),
    decreases a.len(),
{
    if a.len() > 0 && b.len() > 0 && a.first() == b.first() {
        texts_are_ordered(a.drop_first(), b.drop_first());
        if a.drop_first() == b.drop_first() {
            assert(a =~= seq![a.first()] + a.drop_first());
            assert(b =~= seq![b.first()] + b.drop_first());
        }
    }
    if a.len() == 0 && b.len() == 0 {
        assert(a =~= b);
    }
}

/// The order of texts can be chained.
pub proof fn the_order_of_texts_chains(a: Seq<char>, b: Seq<char>, c: Seq<char>)
    requires
        text_before(a, b),
        text_before(b, c),
    ensures
        text_before(a, c),
    decreases a.len(),
{
    if a.len() > 0 && a.first() == b.first() && b.first() == c.first() {
        the_order_of_texts_chains(a.drop_first(), b.drop_first(), c.drop_first());
    }
}

/// Trimming takes off every copy of the character at the end and nothing else.
pub proof fn trim_end_of_takes_only_the_end(text: Seq<char>, c: char)
    ensures
        trim_end_of(text, c).len() <= text.len(),
        trim_end_of(text, c) == text.take(trim_end_of(text, c).len() as int),
        forall|i: int| trim_end_of(text, c).len() <= i < text.len() ==> text[i] == c,
        trim_end_of(text, c).len() > 0 ==> trim_end_of(text, c).last() != c,
    decreases text.len(),
{
    if text.len() > 0 && text.last() == c {
        trim_end_of_takes_only_the_end(text.drop_last(), c);
        let short = trim_end_of(text.drop_last(), c);
        assert(text.drop_last().take(short.len() as int) == text.take(short.len() as int));
    }
    assert(text.take(text.len() as int) == text);
}

proof fn trimming_the_start(text: Seq<char>)
    ensures
        trim_start_white(text).len() <= text.len(),
        trim_start_white(text) == text.skip(text.len() - trim_start_white(text).len()),
        forall|i: int|
            0 <= i < text.len() - trim_start_white(text).len() ==> is_white_space(
                #[trigger] text[i],
            ),
        trim_start_white(text).len() > 0 ==> !is_white_space(trim_start_white(text).first()),
    decreases text.len(),
{
    if text.len() > 0 && is_white_space(text.first()) {
        let rest = text.drop_first();
        trimming_the_start(rest);
        let short = trim_start_white(rest);
        assert(rest.skip(rest.len() - short.len()) =~= text.skip(text.len() - short.len()));
        assert forall|i: int| 0 <= i < text.len() - short.len() implies is_white_space(
            #[trigger] text[i],
        ) by {
            if i > 0 {
                assert(text[i] == rest[i - 1]);
            }
        }
    } else {
        assert(text.skip(0) =~= text);
    }
}

proof fn trimming_the_end(text: Seq<char>)
    ensures
        trim_end_white(text).len() <= text.len(),
        trim_end_white(text) == text.take(trim_end_white(text).len() as int),
        forall|i: int|
            trim_end_white(text).len() <= i < text.len() ==> is_white_space(#[trigger] text[i]),
        trim_end_white(text).len() > 0 ==> !is_white_space(trim_end_white(text).last()),
    decreases text.len(),
{
    if text.len() > 0 && is_white_space(text.last()) {
        let front = text.drop_last();
        trimming_the_end(front);
        let short = trim_end_white(front);
        assert(front.take(short.len() as int) =~= text.take(short.len() as int));
        assert forall|i: int| short.len() <= i < text.len() implies is_white_space(
            #[trigger] text[i],
        ) by {
            if i < front.len() {
                assert(text[i] == front[i]);
            }
        }
    } else {
        assert(text.take(text.len() as int) =~= text);
    }
}

/// What is left of a text between two stretches of white space, when the white space at either end
/// is taken off, is the part in between: a part that neither begins nor ends with white space. Of
/// white space nothing is left.
pub proof fn trimming_leaves_the_middle(before: Seq<char>, middle: Seq<char>, after: Seq<char>)
    requires
        forall|i: int| 0 <= i < before.len() ==> is_white_space(#[trigger] before[i]),
        forall|i: int| 0 <= i < after.len() ==> is_white_space(#[trigger] after[i]),
        middle.len() > 0 ==> !is_white_space(middle.first()) && !is_white_space(middle.last()),
    ensures
        trim_white(before + middle + after) == middle,
{
    let text = before + middle + after;
    let tail = trim_start_white(text);
    let left = trim_white(text);
    let from = text.len() - tail.len();
    trimming_the_start(text);
    trimming_the_end(tail);
    if middle.len() == 0 {
        if tail.len() > 0 {
            assert(tail.first() == text[from]);
            if from < before.len() {
                assert(text[from] == before[from]);
            } else {
                assert(text[from] == after[from - before.len()]);
            }
        }
        assert(left =~= middle);
    } else {
        let start = before.len() as int;
        let end = start + middle.len();
        assert(text[start] == middle.first());
        assert(text[end - 1] == middle.last());
        assert(from <= start);
        if from < start {
            assert(tail.first() == text[from]);
            assert(text[from] == before[from]);
        }
        assert(tail[end - 1 - start] == text[end - 1]);
        assert(left.len() >= end - start);
        if left.len() > end - start {
            let last = left.len() - 1;
            assert(left.last() == tail[last]);
            assert(tail[last] == text[start + last]);
            assert(text[start + last] == after[start + last - end]);
        }
        assert(left =~= middle);
    }
}

/// One text comes before another if and only if it is a proper beginning of the other, or the two
/// agree up to a place where its character has the smaller code point.
pub proof fn texts_are_ordered_by_their_first_difference(a: Seq<char>, b: Seq<char>)
    ensures
        text_before(a, b) <==> exists|n: int|
            0 <= n <= a.len() && n < b.len() && #[trigger] a.take(n) == b.take(n) && (n == a.len()
                || (a[n] as int) < (b[n] as int)),
    decreases a.len(),
{
    if b.len() > 0 && a.len() == 0 {
        assert(a.take(0) =~= b.take(0));
    } else if b.len() > 0 && a.first() == b.first() {
        let x = a.drop_first();
        let y = b.drop_first();
        texts_are_ordered_by_their_first_difference(x, y);
        if text_before(x, y) {
            let n = choose|n: int|
                0 <= n <= x.len() && n < y.len() && #[trigger] x.take(n) == y.take(n) && (n
                    == x.len() || (x[n] as int) < (y[n] as int));
            assert(a.take(n + 1) =~= seq![a.first()] + x.take(n));
            assert(b.take(n + 1) =~= seq![b.first()] + y.take(n));
        }
        if exists|n: int|
            0 <= n <= a.len() && n < b.len() && #[trigger] a.take(n) == b.take(n) && (n == a.len()
                || (a[n] as int) < (b[n] as int)) {
            let n = choose|n: int|
                0 <= n <= a.len() && n < b.len() && #[trigger] a.take(n) == b.take(n) && (n
                    == a.len() || (a[n] as int) < (b[n] as int));
            assert(n > 0);
            assert(x.take(n - 1) =~= a.take(n).drop_first());
            assert(y.take(n - 1) =~= b.take(n).drop_first());
        }
    } else if b.len() > 0 {
        assert(a.take(0) =~= b.take(0));
        assert forall|n: int|
            0 <= n <= a.len() && n < b.len() && #[trigger] a.take(n) == b.take(n) implies n
            == 0 by {
            if n > 0 {
                assert(a.take(n)[0] == b.take(n)[0]);
            }
        }
    }
}

/// An optional text has a value if and only if there is a text, and it is the value of that text.
pub proof fn an_optional_text_is_its_text(text: String)
    ensures
        optional_text(Some(text)) == Some(text@),
        optional_text(None) is None,
{
}

} // verus!
