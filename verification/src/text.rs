//! Searching and rewriting text, character by character.
use vstd::prelude::*;
use vstd::utf8::{decode_utf8, valid_utf8};

verus! {

/// Whether `pattern` stands in `text` at position `i`.
pub open spec fn occurs_at(text: Seq<char>, pattern: Seq<char>, i: int) -> bool {
    &&& 0 <= i
    &&& i + pattern.len() <= text.len()
    &&& text.subrange(i, i + pattern.len()) == pattern
}

/// Whether `pattern` stands anywhere in `text`.
pub open spec fn occurs_in(text: Seq<char>, pattern: Seq<char>) -> bool {
    exists|i: int| occurs_at(text, pattern, i)
}

/// `text` with every occurrence of `from` replaced by `to`: occurrences are taken from the left
/// and do not overlap. The empty `from` stands before each character and at the end.
pub open spec fn replace_all(text: Seq<char>, from: Seq<char>, to: Seq<char>) -> Seq<char>
    decreases text.len(),
{
    if from.len() == 0 {
        if text.len() == 0 {
            to
        } else {
            to + seq![text[0]] + replace_all(text.skip(1), from, to)
        }
    } else if text.len() < from.len() {
        text
    } else if occurs_at(text, from, 0) {
        to + replace_all(text.skip(from.len() as int), from, to)
    } else {
        seq![text[0]] + replace_all(text.skip(1), from, to)
    }
}

/// `String::push` of the standard library appends the character and leaves the rest as it is.
pub assume_specification[ String::push ](s: &mut String, c: char)
    ensures
        final(s)@ == old(s)@.push(c),
;

/// `std::str::from_utf8` gives the text that valid UTF-8 encodes, and refuses every other bytes.
#[verifier::external_body]
pub(crate) fn utf8_text(bytes: &[u8]) -> (text: Option<&str>)
    ensures
        match text {
            Some(text) => valid_utf8(bytes@) && text@ == decode_utf8(bytes@),
            None => !valid_utf8(bytes@),
        },
{
    match std::str::from_utf8(bytes) {
        Ok(text) => Some(text),
        Err(_) => None,
    }
}

/// The characters of `text`, in order.
pub(crate) fn characters(text: &str) -> (chars: Vec<char>)
    ensures
        chars@ == text@,
{
    let mut chars: Vec<char> = Vec::new();
    for c in it: text.chars()
        invariant
            it.seq() == text@,
            chars@ == text@.take(it.index()),
    {
        chars.push(c);
        assert(text@.take(it.index() + 1) == text@.take(it.index()).push(c));
    }
    assert(text@.take(text@.len() as int) == text@);
    chars
}

/// The text made of `chars[start..end]`.
pub(crate) fn slice_text(chars: &Vec<char>, start: usize, end: usize) -> (text: String)
    requires
        start <= end <= chars@.len(),
    ensures
        text@ == chars@.subrange(start as int, end as int),
{
    let mut text: String = String::new();
    let mut i: usize = start;
    while i < end
        invariant
            start <= i <= end <= chars@.len(),
            text@ == chars@.subrange(start as int, i as int),
        decreases end - i,
    {
        text.push(chars[i]);
        i = i + 1;
        assert(chars@.subrange(start as int, i as int) == chars@.subrange(
            start as int,
            i - 1,
        ).push(chars@[i - 1]));
    }
    text
}

/// Whether `pattern` stands in `text` at position `i`.
pub(crate) fn stands_at(text: &Vec<char>, pattern: &Vec<char>, i: usize) -> (found: bool)
    ensures
        found == occurs_at(text@, pattern@, i as int),
{
    if pattern.len() > text.len() || i > text.len() - pattern.len() {
        return false;
    }
    let end: usize = i + pattern.len();
    let mut k: usize = 0;
    while k < pattern.len()
        invariant
            k <= pattern@.len(),
            i + pattern@.len() == end <= text@.len(),
            forall|j: int| 0 <= j < k ==> text@[i + j] == pattern@[j],
        decreases pattern@.len() - k,
    {
        if text[i + k] != pattern[k] {
            assert(text@.subrange(i as int, i + pattern@.len())[k as int] != pattern@[k as int]);
            return false;
        }
        k = k + 1;
    }
    assert(text@.subrange(i as int, i + pattern@.len()) == pattern@);
    true
}

/// Whether `pattern` stands anywhere in `text`.
pub fn contains(text: &str, pattern: &str) -> (found: bool)
    ensures
        found == occurs_in(text@, pattern@),
{
    let chars: Vec<char> = characters(text);
    let wanted: Vec<char> = characters(pattern);
    let mut i: usize = 0;
    while i < chars.len()
        invariant
            chars@ == text@,
            wanted@ == pattern@,
            i <= chars@.len(),
            forall|j: int| 0 <= j < i ==> !occurs_at(text@, pattern@, j),
        decreases chars@.len() - i,
    {
        if stands_at(&chars, &wanted, i) {
            return true;
        }
        i = i + 1;
    }
    stands_at(&chars, &wanted, i)
}

/// `text` with every occurrence of `from` replaced by `to`.
pub fn replace(text: &str, from: &str, to: &str) -> (replaced: String)
    ensures
        replaced@ == replace_all(text@, from@, to@),
{
    let chars: Vec<char> = characters(text);
    let wanted: Vec<char> = characters(from);
    let mut out: String = String::new();
    let mut i: usize = 0;
    assert(text@.skip(0) == text@);
    if wanted.len() == 0 {
        while i < chars.len()
            invariant
                chars@ == text@,
                from@.len() == 0,
                i <= chars@.len(),
                out@ + replace_all(text@.skip(i as int), from@, to@) == replace_all(
                    text@,
                    from@,
                    to@,
                ),
            decreases chars@.len() - i,
        {
            let ghost before = out@;
            out.append(to);
            out.push(chars[i]);
            proof {
                let rest = text@.skip(i as int);
                assert(rest.skip(1) == text@.skip(i + 1));
                assert(before + replace_all(rest, from@, to@) == out@ + replace_all(
                    text@.skip(i + 1),
                    from@,
                    to@,
                ));
            }
            i = i + 1;
        }
        out.append(to);
        return out;
    }
    while i < chars.len()
        invariant
            chars@ == text@,
            wanted@ == from@,
            from@.len() > 0,
            i <= chars@.len(),
            out@ + replace_all(text@.skip(i as int), from@, to@) == replace_all(text@, from@, to@),
        decreases chars@.len() - i,
    {
        let ghost before = out@;
        let ghost rest = text@.skip(i as int);
        if stands_at(&chars, &wanted, i) {
            out.append(to);
            proof {
                assert(rest.subrange(0, from@.len() as int) == text@.subrange(
                    i as int,
                    i + from@.len(),
                ));
                assert(rest.skip(from@.len() as int) == text@.skip(i + from@.len()));
                assert(before + replace_all(rest, from@, to@) == out@ + replace_all(
                    text@.skip(i + from@.len()),
                    from@,
                    to@,
                ));
            }
            i = i + wanted.len();
        } else {
            out.push(chars[i]);
            proof {
                if rest.len() < from@.len() {
                    assert(text@.skip(i + 1).len() < from@.len());
                    assert(rest == seq![rest[0]] + text@.skip(i + 1));
                } else {
                    assert(rest.subrange(0, from@.len() as int) == text@.subrange(
                        i as int,
                        i + from@.len(),
                    ));
                    assert(rest.skip(1) == text@.skip(i + 1));
                }
                assert(before + replace_all(rest, from@, to@) == out@ + replace_all(
                    text@.skip(i + 1),
                    from@,
                    to@,
                ));
            }
            i = i + 1;
        }
    }
    assert(text@.skip(i as int) == Seq::<char>::empty());
    assert(out@ + Seq::<char>::empty() == out@);
    out
}

/// Position of the last `wanted` in `chars`, if there is one.
pub(crate) fn last_index_of(chars: &Vec<char>, wanted: char) -> (found: Option<usize>)
    ensures
        match found {
            Some(i) => i < chars@.len() && chars@[i as int] == wanted && forall|j: int|
                i < j < chars@.len() ==> chars@[j] != wanted,
            None => !chars@.contains(wanted),
        },
{
    let mut i: usize = chars.len();
    while i > 0
        invariant
            i <= chars@.len(),
            forall|j: int| i <= j < chars@.len() ==> chars@[j] != wanted,
        decreases i,
    {
        i = i - 1;
        if chars[i] == wanted {
            return Some(i);
        }
    }
    None
}

/// A text in which `from` does not stand is left as it is.
pub proof fn law_replace_keeps_text_without_occurrence(
    text: Seq<char>,
    from: Seq<char>,
    to: Seq<char>,
)
    requires
        !occurs_in(text, from),
    ensures
        replace_all(text, from, to) == text,
    decreases text.len(),
{
    assert(!occurs_at(text, from, 0));
    if from.len() == 0 {
        assert(text.subrange(0, 0) == from);
    } else if text.len() >= from.len() {
        let rest = text.skip(1);
        assert forall|i: int| !occurs_at(rest, from, i) by {
            assert(!occurs_at(text, from, i + 1));
            if occurs_at(rest, from, i) {
                assert(text.subrange(i + 1, i + 1 + from.len()) == rest.subrange(
                    i,
                    i + from.len(),
                ));
            }
        }
        law_replace_keeps_text_without_occurrence(rest, from, to);
        assert(text == seq![text[0]] + rest);
    }
}

/// Where `from` stands in the text, the result holds the replacement.
pub proof fn law_replacement_appears(text: Seq<char>, from: Seq<char>, to: Seq<char>)
    requires
        occurs_in(text, from),
    ensures
        occurs_in(replace_all(text, from, to), to),
    decreases text.len(),
{
    let result = replace_all(text, from, to);
    if from.len() == 0 || occurs_at(text, from, 0) {
        assert(result.subrange(0, to.len() as int) == to);
        assert(occurs_at(result, to, 0));
    } else {
        let i = choose|i: int| occurs_at(text, from, i);
        let rest = text.skip(1);
        assert(rest.subrange(i - 1, i - 1 + from.len()) == text.subrange(i, i + from.len()));
        assert(occurs_at(rest, from, i - 1));
        law_replacement_appears(rest, from, to);
        let inner = replace_all(rest, from, to);
        let k = choose|k: int| occurs_at(inner, to, k);
        assert(result == seq![text[0]] + inner);
        assert(result.subrange(k + 1, k + 1 + to.len()) == inner.subrange(k, k + to.len()));
        assert(occurs_at(result, to, k + 1));
    }
}

/// Where `from` stands in the text, different replacements of one length give different results.
pub proof fn law_different_replacements_differ(
    text: Seq<char>,
    from: Seq<char>,
    a: Seq<char>,
    b: Seq<char>,
)
    requires
        occurs_in(text, from),
        a.len() == b.len(),
        a != b,
    ensures
        replace_all(text, from, a) != replace_all(text, from, b),
    decreases text.len(),
{
    let with_a = replace_all(text, from, a);
    let with_b = replace_all(text, from, b);
    if from.len() == 0 || occurs_at(text, from, 0) {
        assert(with_a.take(a.len() as int) == a);
        assert(with_b.take(a.len() as int) == b);
    } else {
        let i = choose|i: int| occurs_at(text, from, i);
        let rest = text.skip(1);
        assert(rest.subrange(i - 1, i - 1 + from.len()) == text.subrange(i, i + from.len()));
        assert(occurs_at(rest, from, i - 1));
        law_different_replacements_differ(rest, from, a, b);
        assert(with_a.skip(1) == replace_all(rest, from, a));
        assert(with_b.skip(1) == replace_all(rest, from, b));
    }
}

/// Whether `from`, laid over `to` so that it begins at position `d` of it, agrees with it wherever
/// both have a character.
pub open spec fn agrees_at(from: Seq<char>, to: Seq<char>, d: int) -> bool {
    forall|p: int|
        0 <= p < to.len() && 0 <= p - d < from.len() ==> #[trigger] to[p] == from[p - d]
}

/// Whether no copy of `from` can overlap a copy of `to`, or reach over an empty `to`: laid over it
/// at any position, they disagree.
pub open spec fn cannot_overlap(from: Seq<char>, to: Seq<char>) -> bool {
    forall|d: int| -from.len() < d < to.len() ==> !#[trigger] agrees_at(from, to, d)
}

/// Texts without a common character cannot overlap, unless the replacing one is empty.
pub proof fn law_foreign_texts_cannot_overlap(from: Seq<char>, to: Seq<char>)
    requires
        from.len() > 0,
        to.len() > 0,
        forall|i: int| 0 <= i < to.len() ==> !from.contains(#[trigger] to[i]),
    ensures
        cannot_overlap(from, to),
{
    assert forall|d: int| -from.len() < d < to.len() implies !#[trigger] agrees_at(
        from,
        to,
        d,
    ) by {
        let p = if d < 0 {
            0
        } else {
            d
        };
        assert(!from.contains(to[p]));
        assert(from.contains(from[p - d]));
    }
}

/// A text that holds neither end of `from` and is at most one character shorter cannot overlap it.
pub proof fn law_long_texts_without_ends_cannot_overlap(from: Seq<char>, to: Seq<char>)
    requires
        from.len() > 0,
        !to.contains(from.first()),
        !to.contains(from.last()),
        to.len() + 1 >= from.len(),
    ensures
        cannot_overlap(from, to),
{
    assert forall|d: int| -from.len() < d < to.len() implies !#[trigger] agrees_at(
        from,
        to,
        d,
    ) by {
        let p = if d < 0 {
            d + from.len() - 1
        } else {
            d
        };
        assert(to.contains(to[p]));
    }
}

/// If the result of a replacement begins with the tail `from[j..]`, so does the text.
proof fn lemma_result_begins_like_text(
    text: Seq<char>,
    from: Seq<char>,
    to: Seq<char>,
    j: int,
)
    requires
        1 <= j <= from.len(),
        cannot_overlap(from, to),
        occurs_at(replace_all(text, from, to), from.skip(j), 0),
    ensures
        occurs_at(text, from.skip(j), 0),
    decreases text.len(),
{
    let tail = from.skip(j);
    let result = replace_all(text, from, to);
    if tail.len() == 0 {
        assert(text.subrange(0, 0) == tail);
    } else if text.len() < from.len() {
    } else if occurs_at(text, from, 0) {
        assert forall|p: int| 0 <= p < to.len() && 0 <= p + j < from.len() implies #[trigger] to[p]
            == from[p + j] by {
            assert(result.subrange(0, tail.len() as int)[p] == result[p]);
            assert(tail[p] == from[p + j]);
        }
        assert(agrees_at(from, to, -j));
        assert(false);
    } else {
        let rest = text.skip(1);
        let inner = replace_all(rest, from, to);
        assert(result == seq![text[0]] + inner);
        assert(result.subrange(0, tail.len() as int)[0] == text[0]);
        assert(inner.subrange(0, tail.len() - 1) == result.subrange(0, tail.len() as int).skip(1));
        assert(from.skip(j + 1) == tail.skip(1));
        lemma_result_begins_like_text(rest, from, to, j + 1);
        assert(text.subrange(0, tail.len() as int) == seq![text[0]] + rest.subrange(
            0,
            tail.len() - 1,
        ));
        assert(tail == seq![tail[0]] + tail.skip(1));
    }
}

/// A replacement leaves no occurrence of `from` behind, not even one that only came about by the
/// replacement, if no copy of `from` can overlap a copy of `to`.
pub proof fn law_replace_leaves_no_occurrence(text: Seq<char>, from: Seq<char>, to: Seq<char>)
    requires
        from.len() > 0,
        cannot_overlap(from, to),
    ensures
        !occurs_in(replace_all(text, from, to), from),
    decreases text.len(),
{
    let result = replace_all(text, from, to);
    assert forall|i: int| !occurs_at(result, from, i) by {
        if occurs_at(result, from, i) {
            assert(result.subrange(i, i + from.len())[0] == result[i]);
            if text.len() < from.len() {
                assert(i == 0);
            } else if occurs_at(text, from, 0) {
                let rest = text.skip(from.len() as int);
                let inner = replace_all(rest, from, to);
                if i < to.len() {
                    assert forall|p: int|
                        0 <= p < to.len() && 0 <= p - i < from.len() implies #[trigger] to[p]
                        == from[p - i] by {
                        assert(result.subrange(i, i + from.len())[p - i] == result[p]);
                        assert(result[p] == to[p]);
                    }
                    assert(agrees_at(from, to, i));
                } else {
                    law_replace_leaves_no_occurrence(rest, from, to);
                    assert(inner.subrange(i - to.len(), i - to.len() + from.len())
                        == result.subrange(i, i + from.len()));
                    assert(occurs_at(inner, from, i - to.len()));
                }
            } else {
                let rest = text.skip(1);
                let inner = replace_all(rest, from, to);
                if i == 0 {
                    assert(inner.subrange(0, from.len() - 1) == result.subrange(
                        0,
                        from.len() as int,
                    ).skip(1));
                    lemma_result_begins_like_text(rest, from, to, 1);
                    assert(text.subrange(0, from.len() as int) == seq![text[0]] + rest.subrange(
                        0,
                        from.len() - 1,
                    ));
                    assert(from == seq![from[0]] + from.skip(1));
                    assert(occurs_at(text, from, 0));
                } else {
                    law_replace_leaves_no_occurrence(rest, from, to);
                    assert(inner.subrange(i - 1, i - 1 + from.len()) == result.subrange(
                        i,
                        i + from.len(),
                    ));
                    assert(occurs_at(inner, from, i - 1));
                }
            }
        }
    }
}

/// Characters that cannot begin an occurrence are passed over unchanged.
proof fn lemma_plain_prefix_is_kept(text: Seq<char>, from: Seq<char>, to: Seq<char>, n: int)
    requires
        from.len() > 0,
        0 <= n <= text.len(),
        forall|i: int| 0 <= i < n ==> text[i] != from.first(),
    ensures
        replace_all(text, from, to) == text.take(n) + replace_all(text.skip(n), from, to),
    decreases n,
{
    if n == 0 {
        assert(text.skip(0) == text);
        assert(text.take(0) + replace_all(text, from, to) == replace_all(text, from, to));
    } else if text.len() < from.len() {
        assert(text == text.take(n) + text.skip(n));
    } else {
        if occurs_at(text, from, 0) {
            assert(text.subrange(0, from.len() as int)[0] == text[0]);
        }
        let rest = text.skip(1);
        lemma_plain_prefix_is_kept(rest, from, to, n - 1);
        assert(rest.skip(n - 1) == text.skip(n));
        assert(text.take(n) == seq![text[0]] + rest.take(n - 1));
        assert(seq![text[0]] + (rest.take(n - 1) + replace_all(rest.skip(n - 1), from, to)) == (seq![
            text[0],
        ] + rest.take(n - 1)) + replace_all(text.skip(n), from, to));
    }
}

/// Where `from` stands in the text between `before` and `after`, the replacement stands between
/// them in the result, if no occurrence of `from` can reach into `before` or begin in `after`.
pub proof fn law_replacement_keeps_surroundings(
    text: Seq<char>,
    before: Seq<char>,
    from: Seq<char>,
    after: Seq<char>,
    to: Seq<char>,
)
    requires
        from.len() > 0,
        before.len() > 0,
        !from.contains(before.first()),
        !before.contains(from.first()),
        !after.contains(from.first()),
        occurs_in(text, before + from + after),
    ensures
        occurs_in(replace_all(text, from, to), before + to + after),
    decreases text.len(),
{
    let whole = before + from + after;
    let i = choose|i: int| occurs_at(text, whole, i);
    let result = replace_all(text, from, to);
    let window = text.subrange(i, i + whole.len());
    if i == 0 {
        let b = before.len() as int;
        let f = from.len() as int;
        let a = after.len() as int;
        assert forall|j: int| 0 <= j < b implies text[j] != from.first() by {
            assert(window[j] == text[j]);
            assert(before.contains(before[j]));
        }
        assert(text.take(b) == before) by {
            assert(window.take(b) == before);
            assert(window.take(b) == text.take(b));
        }
        lemma_plain_prefix_is_kept(text, from, to, b);
        let rest = text.skip(b);
        assert(rest.subrange(0, f) == from) by {
            assert(window.subrange(b, b + f) == from);
            assert(window.subrange(b, b + f) == rest.subrange(0, f));
        }
        let tail = rest.skip(f);
        assert(tail.take(a) == after) by {
            assert(window.skip(b + f) == after);
            assert(window.skip(b + f) == tail.take(a));
        }
        assert forall|j: int| 0 <= j < a implies tail[j] != from.first() by {
            assert(tail.take(a)[j] == tail[j]);
            assert(after.contains(after[j]));
        }
        lemma_plain_prefix_is_kept(tail, from, to, a);
        let end = replace_all(tail.skip(a), from, to);
        assert(result == before + (to + (after + end)));
        assert(result.subrange(0, b + to.len() + a) == before + to + after);
        assert(occurs_at(result, before + to + after, 0));
    } else {
        let step = if occurs_at(text, from, 0) {
            from.len() as int
        } else {
            1
        };
        let head = if occurs_at(text, from, 0) {
            to
        } else {
            seq![text[0]]
        };
        if occurs_at(text, from, 0) && i < from.len() {
            assert(text.subrange(0, from.len() as int)[i] == text[i]);
            assert(window[0] == text[i]);
            assert(window[0] == before.first());
            assert(from.contains(from[i]));
        }
        let rest = text.skip(step);
        assert(rest.subrange(i - step, i - step + whole.len()) == window);
        assert(occurs_at(rest, whole, i - step));
        law_replacement_keeps_surroundings(rest, before, from, after, to);
        let inner = replace_all(rest, from, to);
        let wanted = before + to + after;
        let k = choose|k: int| occurs_at(inner, wanted, k);
        assert(result == head + inner);
        assert(result.subrange(k + head.len(), k + head.len() + wanted.len()) == inner.subrange(
            k,
            k + wanted.len(),
        ));
        assert(occurs_at(result, wanted, k + head.len()));
    }
}

/// A text that goes on with its first occurrence of `from` after `head` becomes `head`, the
/// replacement, and what the rest becomes.
proof fn lemma_replace_after_head(
    head: Seq<char>,
    tail: Seq<char>,
    from: Seq<char>,
    to: Seq<char>,
)
    requires
        from.len() > 0,
        forall|k: int|
            0 <= k < head.len() ==> #[trigger] (head + from).subrange(k, k + from.len()) != from,
    ensures
        replace_all(head + from + tail, from, to) == head + to + replace_all(tail, from, to),
    decreases head.len(),
{
    let text = head + from + tail;
    if head.len() == 0 {
        assert(text.subrange(0, from.len() as int) == from);
        assert(occurs_at(text, from, 0));
        assert(text.skip(from.len() as int) == tail);
        assert(head + to + replace_all(tail, from, to) == to + replace_all(tail, from, to));
    } else {
        let rest = head.skip(1);
        assert((head + from).subrange(0, 0int + from.len()) != from);
        assert(text.subrange(0, from.len() as int) == (head + from).subrange(
            0,
            from.len() as int,
        ));
        assert forall|k: int| 0 <= k < rest.len() implies #[trigger] (rest + from).subrange(
            k,
            k + from.len(),
        ) != from by {
            assert((rest + from).subrange(k, k + from.len()) == (head + from).subrange(
                k + 1,
                k + 1 + from.len(),
            ));
        }
        lemma_replace_after_head(rest, tail, from, to);
        assert(text.skip(1) == rest + from + tail);
        assert(seq![text[0]] + (rest + to + replace_all(tail, from, to)) == head + to
            + replace_all(tail, from, to));
    }
}

/// Only the occurrences are replaced: where a text is made of `parts` with `from` between them,
/// the result is made of the same parts with `to` between them. Each `from` that stands between
/// parts is the first one after the one before, and none stands in the last part.
pub proof fn law_only_occurrences_are_replaced(
    parts: Seq<Seq<char>>,
    from: Seq<char>,
    to: Seq<char>,
)
    requires
        from.len() > 0,
        parts.len() > 0,
        forall|i: int, k: int|
            0 <= i < parts.len() - 1 && 0 <= k < parts[i].len() ==> #[trigger] (parts[i]
                + from).subrange(k, k + from.len()) != from,
        forall|k: int|
            0 <= k <= parts.last().len() - from.len() ==> #[trigger] parts.last().subrange(
                k,
                k + from.len(),
            ) != from,
    ensures
        replace_all(
            parts[0] + parts.skip(1).map_values(|p: Seq<char>| from + p).flatten(),
            from,
            to,
        ) == parts[0] + parts.skip(1).map_values(|p: Seq<char>| to + p).flatten(),
    decreases parts.len(),
{
    let before = parts.skip(1).map_values(|p: Seq<char>| from + p);
    let after = parts.skip(1).map_values(|p: Seq<char>| to + p);
    if parts.len() == 1 {
        assert(parts[0] + before.flatten() == parts[0]);
        assert(parts[0] + after.flatten() == parts[0]);
        assert forall|k: int| !occurs_at(parts[0], from, k) by {
            if 0 <= k <= parts[0].len() - from.len() {
                assert(parts.last().subrange(k, k + from.len()) != from);
            }
        }
        law_replace_keeps_text_without_occurrence(parts[0], from, to);
    } else {
        let others = parts.skip(1);
        let before_others = others.skip(1).map_values(|p: Seq<char>| from + p);
        let after_others = others.skip(1).map_values(|p: Seq<char>| to + p);
        assert forall|i: int, k: int|
            0 <= i < others.len() - 1 && 0 <= k < others[i].len() implies #[trigger] (others[i]
            + from).subrange(k, k + from.len()) != from by {
            assert(others[i] == parts[i + 1]);
            assert((parts[i + 1] + from).subrange(k, k + from.len()) != from);
        }
        assert(others.last() == parts.last());
        law_only_occurrences_are_replaced(others, from, to);
        let tail = others[0] + before_others.flatten();
        assert(before.drop_first() == before_others);
        assert(after.drop_first() == after_others);
        assert(parts[0] + before.flatten() == parts[0] + from + tail);
        assert forall|k: int| 0 <= k < parts[0].len() implies #[trigger] (parts[0]
            + from).subrange(k, k + from.len()) != from by {}
        lemma_replace_after_head(parts[0], tail, from, to);
        assert(parts[0] + after.flatten() == parts[0] + to + (others[0]
            + after_others.flatten()));
    }
}

/// Every text is made of parts in the way that [`law_only_occurrences_are_replaced`] speaks of.
pub proof fn law_every_text_has_parts(text: Seq<char>, from: Seq<char>) -> (parts: Seq<Seq<char>>)
    requires
        from.len() > 0,
    ensures
        parts.len() > 0,
        text == parts[0] + parts.skip(1).map_values(|p: Seq<char>| from + p).flatten(),
        forall|i: int, k: int|
            0 <= i < parts.len() - 1 && 0 <= k < parts[i].len() ==> #[trigger] (parts[i]
                + from).subrange(k, k + from.len()) != from,
        forall|k: int|
            0 <= k <= parts.last().len() - from.len() ==> #[trigger] parts.last().subrange(
                k,
                k + from.len(),
            ) != from,
    decreases text.len(),
{
    if occurs_in(text, from) {
        let at = lemma_first_occurrence(text, from, choose|i: int| occurs_at(text, from, i));
        let head = text.take(at);
        let tail = text.skip(at + from.len());
        let others = law_every_text_has_parts(tail, from);
        let parts = seq![head] + others;
        assert(parts.skip(1) == others);
        let joined = others.map_values(|p: Seq<char>| from + p);
        let joined_others = others.skip(1).map_values(|p: Seq<char>| from + p);
        assert(joined.drop_first() == joined_others);
        assert(joined.flatten() == from + others[0] + joined_others.flatten());
        assert(text == head + from + tail) by {
            assert(text.subrange(at, at + from.len()) == from);
            assert(text == text.take(at) + text.subrange(at, at + from.len()) + text.skip(
                at + from.len(),
            ));
        }
        assert(text == parts[0] + joined.flatten());
        assert forall|i: int, k: int|
            0 <= i < parts.len() - 1 && 0 <= k < parts[i].len() implies #[trigger] (parts[i]
            + from).subrange(k, k + from.len()) != from by {
            if i == 0 {
                assert(!occurs_at(text, from, k));
                assert((head + from).subrange(k, k + from.len()) == text.subrange(
                    k,
                    k + from.len(),
                ));
            } else {
                assert(parts[i] == others[i - 1]);
                assert((others[i - 1] + from).subrange(k, k + from.len()) != from);
            }
        }
        assert(parts.last() == others.last());
        parts
    } else {
        let parts = seq![text];
        assert(parts.skip(1).map_values(|p: Seq<char>| from + p).flatten() == Seq::<char>::empty());
        assert(text + Seq::<char>::empty() == text);
        assert forall|k: int|
            0 <= k <= parts.last().len() - from.len() implies #[trigger] parts.last().subrange(
            k,
            k + from.len(),
        ) != from by {
            assert(!occurs_at(text, from, k));
        }
        parts
    }
}

/// The first place where `from` stands, if it stands at `i`.
proof fn lemma_first_occurrence(text: Seq<char>, from: Seq<char>, i: int) -> (at: int)
    requires
        occurs_at(text, from, i),
    ensures
        occurs_at(text, from, at),
        forall|k: int| 0 <= k < at ==> !occurs_at(text, from, k),
    decreases i,
{
    if exists|k: int| 0 <= k < i && occurs_at(text, from, k) {
        lemma_first_occurrence(
            text,
            from,
            choose|k: int| 0 <= k < i && occurs_at(text, from, k),
        )
    } else {
        i
    }
}

/// The empty text stands before each character and at the end.
pub proof fn law_empty_text_stands_everywhere(text: Seq<char>, to: Seq<char>)
    ensures
        replace_all(text, Seq::empty(), to) == to + text.map_values(
            |c: char| seq![c] + to,
        ).flatten(),
    decreases text.len(),
{
    let between = text.map_values(|c: char| seq![c] + to);
    if text.len() == 0 {
        assert(to + between.flatten() == to);
    } else {
        law_empty_text_stands_everywhere(text.skip(1), to);
        assert(between.drop_first() == text.skip(1).map_values(|c: char| seq![c] + to));
        assert(to + between.flatten() == to + seq![text[0]] + (to
            + between.drop_first().flatten()));
    }
}

/// What [`replace`] gives back of a text, told by the parts of the text between the occurrences.
pub proof fn law_replace_keeps_the_parts(
    text: &str,
    from: &str,
    to: &str,
    replaced: String,
    parts: Seq<Seq<char>>,
)
    requires
        call_ensures(replace, (text, from, to), replaced),
        from@.len() > 0,
        parts.len() > 0,
        text@ == parts[0] + parts.skip(1).map_values(|p: Seq<char>| from@ + p).flatten(),
        forall|i: int, k: int|
            0 <= i < parts.len() - 1 && 0 <= k < parts[i].len() ==> #[trigger] (parts[i]
                + from@).subrange(k, k + from@.len()) != from@,
        forall|k: int|
            0 <= k <= parts.last().len() - from@.len() ==> #[trigger] parts.last().subrange(
                k,
                k + from@.len(),
            ) != from@,
    ensures
        replaced@ == parts[0] + parts.skip(1).map_values(|p: Seq<char>| to@ + p).flatten(),
{
    law_only_occurrences_are_replaced(parts, from@, to@);
}

/// What [`replace`] gives back where the empty text is to be replaced.
pub proof fn law_replace_of_the_empty_text(text: &str, from: &str, to: &str, replaced: String)
    requires
        call_ensures(replace, (text, from, to), replaced),
        from@.len() == 0,
    ensures
        replaced@ == to@ + text@.map_values(|c: char| seq![c] + to@).flatten(),
{
    assert(from@ == Seq::<char>::empty());
    law_empty_text_stands_everywhere(text@, to@);
}

/// What [`contains`] finds: a place where the characters of the pattern stand one after the other.
pub proof fn law_contains_finds_a_place(text: &str, pattern: &str, found: bool)
    requires
        call_ensures(contains, (text, pattern), found),
    ensures
        found <==> exists|i: int|
            0 <= i <= text@.len() - pattern@.len() && #[trigger] text@.subrange(
                i,
                i + pattern@.len(),
            ) == pattern@,
{
    if found {
        let i = choose|i: int| occurs_at(text@, pattern@, i);
        assert(text@.subrange(i, i + pattern@.len()) == pattern@);
    }
    if exists|i: int|
        0 <= i <= text@.len() - pattern@.len() && #[trigger] text@.subrange(i, i + pattern@.len())
            == pattern@ {
        let i = choose|i: int|
            0 <= i <= text@.len() - pattern@.len() && #[trigger] text@.subrange(
                i,
                i + pattern@.len(),
            ) == pattern@;
        assert(occurs_at(text@, pattern@, i));
    }
}

} // verus!
