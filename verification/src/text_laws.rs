//! What trimming, splitting, joining and counting mean, each in terms of the
//! text that goes in and the text that comes out.

use vstd::prelude::*;

use crate::text::{
    after, before, decimal, digits_value, is_white, join, lemma_decimal_value, lemma_position,
    parsed_u64, position, skip_newlines, split, starts_with, trim, trim_end, trim_start, word_len,
    words,
};

verus! {

/// Whether a text is made of white space alone.
pub open spec fn is_blank(s: Seq<char>) -> bool {
    forall|i: int| 0 <= i < s.len() ==> is_white(#[trigger] s[i])
}

/// Whether a text neither begins nor ends with white space.
pub open spec fn is_trimmed(s: Seq<char>) -> bool {
    s.len() > 0 ==> !is_white(s[0]) && !is_white(s.last())
}

/// Spaces, tabs and line breaks are white space; visible ASCII characters are
/// not.
pub proof fn law_white_space_of_ascii(c: char)
    requires
        c as u32 <= 127,
    ensures
        is_white(c) <==> c == ' ' || c as u32 == 9 || c as u32 == 10 || c as u32 == 11 || c as u32
            == 12 || c as u32 == 13,
{
}

/// Trimming takes the white space off both ends, and nothing else.
pub proof fn law_trim_takes_white_space_only(left: Seq<char>, text: Seq<char>, right: Seq<char>)
    requires
        is_blank(left),
        is_blank(right),
        is_trimmed(text),
    ensures
        trim(left + text + right) == text,
        trim_start(left + text) == text,
        trim_end(text + right) == text,
    decreases left.len() + right.len(),
{
    lemma_trim_start(left, text + right);
    lemma_trim_start(left, text);
    lemma_trim_end(text, right);
    assert(left + text + right =~= left + (text + right));
    if text.len() > 0 {
        assert((text + right)[0] == text[0]);
        assert(trim_start(text + right) == text + right);
    } else {
        assert(text + right =~= right);
        lemma_trim_blank(right);
        lemma_trim_blank_start(right);
        assert(text =~= Seq::empty());
    }
}

proof fn lemma_trim_blank_start(s: Seq<char>)
    requires
        is_blank(s),
    ensures
        trim_start(s) == Seq::<char>::empty(),
    decreases s.len(),
{
    if s.len() > 0 {
        assert(is_white(s[0]));
        assert forall|i: int| 0 <= i < s.drop_first().len() implies is_white(
            #[trigger] s.drop_first()[i],
        ) by {
            assert(is_white(s[i + 1]));
        }
        lemma_trim_blank_start(s.drop_first());
    } else {
        assert(s =~= Seq::empty());
    }
}

proof fn lemma_trim_blank(s: Seq<char>)
    requires
        is_blank(s),
    ensures
        trim_end(s) == Seq::<char>::empty(),
    decreases s.len(),
{
    if s.len() > 0 {
        assert(is_white(s[s.len() - 1]));
        assert forall|i: int| 0 <= i < s.drop_last().len() implies is_white(
            #[trigger] s.drop_last()[i],
        ) by {
            assert(is_white(s[i]));
        }
        lemma_trim_blank(s.drop_last());
    } else {
        assert(s =~= Seq::empty());
    }
}

proof fn lemma_trim_start(left: Seq<char>, text: Seq<char>)
    requires
        is_blank(left),
    ensures
        trim_start(left + text) == trim_start(text),
    decreases left.len(),
{
    if left.len() == 0 {
        assert(left + text =~= text);
    } else {
        assert(is_white(left[0]));
        assert((left + text).drop_first() =~= left.drop_first() + text);
        assert forall|i: int| 0 <= i < left.drop_first().len() implies is_white(
            #[trigger] left.drop_first()[i],
        ) by {
            assert(is_white(left[i + 1]));
        }
        lemma_trim_start(left.drop_first(), text);
    }
}

proof fn lemma_trim_end(text: Seq<char>, right: Seq<char>)
    requires
        is_blank(right),
    ensures
        trim_end(text + right) == trim_end(text),
    decreases right.len(),
{
    if right.len() == 0 {
        assert(text + right =~= text);
    } else {
        assert(is_white(right[right.len() - 1]));
        assert((text + right).drop_last() =~= text + right.drop_last());
        assert forall|i: int| 0 <= i < right.drop_last().len() implies is_white(
            #[trigger] right.drop_last()[i],
        ) by {
            assert(is_white(right[i]));
        }
        lemma_trim_end(text, right.drop_last());
    }
}

/// Every text is what trimming leaves of it, between two stretches of white
/// space.
pub proof fn law_trim_leaves_the_middle(s: Seq<char>)
    ensures
        is_trimmed(trim(s)),
        exists|left: Seq<char>, right: Seq<char>|
            s == #[trigger] (left + trim(s) + right) && is_blank(left) && is_blank(right),
{
    lemma_split_start(s);
    let t = trim_start(s);
    let left = s.take(s.len() - t.len());
    lemma_split_end(t);
    let m = trim_end(t);
    let right = t.skip(m.len() as int);
    assert(s =~= left + m + right);
    if m.len() > 0 {
        assert(m[0] == t[0]);
    }
}

proof fn lemma_split_start(s: Seq<char>)
    ensures
        trim_start(s).len() <= s.len(),
        trim_start(s) == s.skip(s.len() - trim_start(s).len()),
        is_blank(s.take(s.len() - trim_start(s).len())),
        trim_start(s).len() > 0 ==> !is_white(trim_start(s)[0]),
    decreases s.len(),
{
    if s.len() > 0 && is_white(s[0]) {
        let d = s.drop_first();
        lemma_split_start(d);
        let n = s.len() - trim_start(s).len();
        assert(trim_start(s) =~= s.skip(n));
        assert forall|i: int| 0 <= i < s.take(n).len() implies is_white(#[trigger] s.take(n)[i]) by {
            if i > 0 {
                assert(is_white(d.take(n - 1)[i - 1]));
            }
        }
    } else {
        assert(s.skip(0) =~= s);
    }
}

proof fn lemma_split_end(s: Seq<char>)
    ensures
        trim_end(s).len() <= s.len(),
        trim_end(s) == s.take(trim_end(s).len() as int),
        is_blank(s.skip(trim_end(s).len() as int)),
        trim_end(s).len() > 0 ==> !is_white(trim_end(s).last()),
    decreases s.len(),
{
    if s.len() > 0 && is_white(s.last()) {
        let d = s.drop_last();
        lemma_split_end(d);
        let n = trim_end(s).len() as int;
        assert(trim_end(s) =~= s.take(n));
        assert forall|i: int| 0 <= i < s.skip(n).len() implies is_white(#[trigger] s.skip(n)[i]) by {
            if i < s.len() - n - 1 {
                assert(is_white(d.skip(n)[i]));
            }
        }
    } else {
        assert(s.take(s.len() as int) =~= s);
    }
}

/// Leading line breaks are skipped, and nothing else.
pub proof fn law_leading_line_breaks_are_skipped(breaks: Seq<char>, text: Seq<char>)
    requires
        forall|i: int| 0 <= i < breaks.len() ==> #[trigger] breaks[i] == '\n' || breaks[i] == '\r',
        text.len() > 0 ==> text[0] != '\n' && text[0] != '\r',
    ensures
        skip_newlines(breaks + text) == text,
    decreases breaks.len(),
{
    if breaks.len() == 0 {
        assert(breaks + text =~= text);
    } else {
        let rest = breaks.drop_first();
        assert(breaks[0] == '\n' || breaks[0] == '\r');
        assert((breaks + text).drop_first() =~= rest + text);
        assert forall|i: int| 0 <= i < rest.len() implies #[trigger] rest[i] == '\n' || rest[i]
            == '\r' by {
            assert(breaks[i + 1] == '\n' || breaks[i + 1] == '\r');
        }
        law_leading_line_breaks_are_skipped(rest, text);
    }
}

/// A text is divided at the first mark: what stands before it and what stands
/// after it, without the mark.
pub proof fn law_text_is_divided_at_the_first_mark(head: Seq<char>, mark: char, tail: Seq<char>)
    requires
        !head.contains(mark),
    ensures
        position(head.push(mark) + tail, mark) == head.len(),
        before(head.push(mark) + tail, mark) == head,
        after(head.push(mark) + tail, mark) == tail,
        before(head, mark) == head,
        after(head, mark) == Seq::<char>::empty(),
{
    let s = head.push(mark) + tail;
    lemma_position(s, mark);
    lemma_position(head, mark);
    let p = position(s, mark) as int;
    assert(s[head.len() as int] == mark);
    if p < head.len() {
        assert(head[p] == mark);
        assert(head.contains(mark));
    }
    let q = position(head, mark) as int;
    if q < head.len() {
        assert(head.contains(mark));
    }
    assert(s.take(head.len() as int) =~= head);
    assert(s.skip((head.len() + 1) as int) =~= tail);
    assert(head.take(q) =~= head);
}

/// Joining puts the separator between the parts, and only there.
pub proof fn law_join_separates(parts: Seq<Seq<char>>, last: Seq<char>, sep: Seq<char>)
    ensures
        join(Seq::<Seq<char>>::empty(), sep) == Seq::<char>::empty(),
        join(seq![last], sep) == last,
        parts.len() > 0 ==> join(parts.push(last), sep) == join(parts, sep) + sep + last,
{
    if parts.len() > 0 {
        assert(parts.push(last).drop_last() =~= parts);
    }
}

pub proof fn lemma_join_first(first: Seq<char>, rest: Seq<Seq<char>>, sep: Seq<char>)
    requires
        rest.len() > 0,
    ensures
        join(seq![first] + rest, sep) == first + sep + join(rest, sep),
    decreases rest.len(),
{
    let all = seq![first] + rest;
    if rest.len() == 1 {
        assert(all.drop_last() =~= seq![first]);
        assert(join(all.drop_last(), sep) == first);
        assert(all.last() == rest[0]);
    } else {
        lemma_join_first(first, rest.drop_last(), sep);
        assert(all.drop_last() =~= seq![first] + rest.drop_last());
        assert(all.last() == rest.last());
        assert(first + sep + join(rest, sep) =~= first + sep + join(rest.drop_last(), sep) + sep
            + rest.last());
    }
}

/// Splitting undoes joining: parts without the mark, joined by it, come back
/// one by one.
pub proof fn law_split_undoes_join(parts: Seq<Seq<char>>, mark: char)
    requires
        parts.len() > 0,
        forall|i: int| 0 <= i < parts.len() ==> !(#[trigger] parts[i]).contains(mark),
    ensures
        split(join(parts, seq![mark]), mark) == parts,
    decreases parts.len(),
{
    let text = join(parts, seq![mark]);
    let first = parts[0];
    let rest = parts.drop_first();
    assert(!first.contains(mark));
    if parts.len() == 1 {
        law_text_is_divided_at_the_first_mark(first, mark, Seq::empty());
        lemma_position(first, mark);
        assert(position(first, mark) == first.len()) by {
            if position(first, mark) < first.len() {
                assert(first.contains(mark));
            }
        }
        assert(split(text, mark) =~= parts);
    } else {
        assert(parts =~= seq![first] + rest);
        lemma_join_first(first, rest, seq![mark]);
        let tail = join(rest, seq![mark]);
        assert(text =~= first.push(mark) + tail);
        law_text_is_divided_at_the_first_mark(first, mark, tail);
        assert forall|i: int| 0 <= i < rest.len() implies !(#[trigger] rest[i]).contains(mark) by {
            assert(!parts[i + 1].contains(mark));
        }
        law_split_undoes_join(rest, mark);
        assert(split(text, mark) =~= parts);
    }
}

/// Whether a text is one word.
pub open spec fn is_word(s: Seq<char>) -> bool {
    s.len() > 0 && forall|i: int| 0 <= i < s.len() ==> !is_white(#[trigger] s[i])
}

proof fn lemma_word_then_space(word: Seq<char>, rest: Seq<char>)
    requires
        forall|i: int| 0 <= i < word.len() ==> !is_white(#[trigger] word[i]),
        rest.len() > 0 ==> is_white(rest[0]),
    ensures
        word_len(word + rest) == word.len(),
    decreases word.len(),
{
    let s = word + rest;
    if word.len() > 0 {
        assert(!is_white(word[0]));
        assert(s.drop_first() =~= word.drop_first() + rest);
        assert forall|i: int| 0 <= i < word.drop_first().len() implies !is_white(
            #[trigger] word.drop_first()[i],
        ) by {
            assert(!is_white(word[i + 1]));
        }
        lemma_word_then_space(word.drop_first(), rest);
    } else {
        assert(s =~= rest);
    }
}

/// The words of a text are what stands between the white space: words that are
/// put down one after the other, each behind white space, come back in order.
pub proof fn law_words_stand_between_white_space(
    space: Seq<char>,
    word: Seq<char>,
    rest: Seq<char>,
)
    requires
        is_blank(space),
        is_word(word),
        rest.len() > 0 ==> is_white(rest[0]),
    ensures
        words(space) == Seq::<Seq<char>>::empty(),
        words(space + word + rest) == seq![word] + words(rest),
{
    lemma_trim_blank_start(space);
    assert(!is_white(word[0]));
    lemma_trim_start(space, word + rest);
    assert(space + word + rest =~= space + (word + rest));
    assert((word + rest)[0] == word[0]);
    assert(trim_start(word + rest) == word + rest);
    assert forall|i: int| 0 <= i < word.len() implies !is_white(#[trigger] word[i]) by {}
    lemma_word_then_space(word, rest);
    assert((word + rest).take(word.len() as int) =~= word);
    assert((word + rest).skip(word.len() as int) =~= rest);
}

/// White space before the words of a text does not matter.
pub proof fn law_words_behind_white_space(space: Seq<char>, text: Seq<char>)
    requires
        is_blank(space),
    ensures
        words(space + text) == words(text),
{
    lemma_trim_start(space, text);
}

/// Numbers that are written down in digits read back as they are, with or
/// without white space and a plus sign.
pub proof fn law_written_numbers_read_back(n: u64)
    ensures
        digits_value(decimal(n as nat)) == Some(n as nat),
        parsed_u64(decimal(n as nat)) == Some(n),
        parsed_u64(seq!['+'] + decimal(n as nat)) == Some(n),
{
    lemma_decimal_value(n as nat);
    let d = decimal(n as nat);
    lemma_decimal_digits(n as nat);
    assert(d[0] != '+');
    assert((seq!['+'] + d).skip(1) =~= d);
}

pub proof fn lemma_decimal_digits(n: nat)
    ensures
        decimal(n).len() > 0,
        forall|i: int| 0 <= i < decimal(n).len() ==> '0' <= #[trigger] decimal(n)[i] <= '9',
    decreases n,
{
    if n >= 10 {
        lemma_decimal_digits(n / 10);
        let earlier = decimal(n / 10);
        assert forall|i: int| 0 <= i < decimal(n).len() implies '0' <= #[trigger] decimal(n)[i]
            <= '9' by {
            if i < earlier.len() {
                assert(decimal(n)[i] == earlier[i]);
            }
        }
    }
}

/// Whether the pieces stand in a text in this order and without overlap, each
/// in one stretch.
pub open spec fn stand_in_order(pieces: Seq<Seq<char>>, text: Seq<char>) -> bool
    decreases pieces.len(),
{
    pieces.len() > 0 ==> exists|i: int| #[trigger]
        stands_at(pieces.last(), text, i) && stand_in_order(pieces.drop_last(), text.take(i))
}

/// Whether a piece stands at a place of a text.
pub open spec fn stands_at(piece: Seq<char>, text: Seq<char>, i: int) -> bool {
    0 <= i <= text.len() - piece.len() && text.subrange(i, i + piece.len()) == piece
}

pub proof fn lemma_whole_stands(text: Seq<char>)
    ensures
        stand_in_order(seq![text], text),
        stand_in_order(Seq::empty(), text),
{
    assert(stands_at(text, text, 0)) by {
        assert(text.subrange(0, text.len() as int) =~= text);
    }
    let one = seq![text];
    assert(one.last() == text);
    assert(stand_in_order(one.drop_last(), text.take(0)));
}

/// Pieces still stand in order when more text is put around.
pub proof fn lemma_order_within(
    pieces: Seq<Seq<char>>,
    left: Seq<char>,
    text: Seq<char>,
    right: Seq<char>,
)
    requires
        stand_in_order(pieces, text),
    ensures
        stand_in_order(pieces, left + text + right),
    decreases pieces.len(),
{
    if pieces.len() > 0 {
        let piece = pieces.last();
        let i = choose|i: int| #[trigger]
            stands_at(piece, text, i) && stand_in_order(pieces.drop_last(), text.take(i));
        let all = left + text + right;
        let at = left.len() + i;
        assert(all.subrange(at, at + piece.len()) =~= text.subrange(i, i + piece.len()));
        assert(stands_at(piece, all, at));
        lemma_order_within(pieces.drop_last(), left, text.take(i), Seq::empty());
        assert(all.take(at) =~= left + text.take(i) + Seq::<char>::empty());
    }
}

/// What stands in order in two texts stands in order in both together.
pub proof fn lemma_order_concat(
    first: Seq<Seq<char>>,
    a: Seq<char>,
    second: Seq<Seq<char>>,
    b: Seq<char>,
)
    requires
        stand_in_order(first, a),
        stand_in_order(second, b),
    ensures
        stand_in_order(first + second, a + b),
    decreases second.len(),
{
    if second.len() == 0 {
        assert(first + second =~= first);
        lemma_order_within(first, Seq::empty(), a, b);
        assert(Seq::<char>::empty() + a + b =~= a + b);
    } else {
        let piece = second.last();
        let i = choose|i: int| #[trigger]
            stands_at(piece, b, i) && stand_in_order(second.drop_last(), b.take(i));
        let at = a.len() + i;
        let all = a + b;
        assert(all.subrange(at, at + piece.len()) =~= b.subrange(i, i + piece.len()));
        assert(stands_at(piece, all, at));
        lemma_order_concat(first, a, second.drop_last(), b.take(i));
        assert(all.take(at) =~= a + b.take(i));
        assert((first + second).drop_last() =~= first + second.drop_last());
        assert((first + second).last() == piece);
    }
}

/// What begins with a prefix is the prefix and something behind it.
pub proof fn law_prefix_stands_first(s: Seq<char>, prefix: Seq<char>, rest: Seq<char>)
    ensures
        starts_with(prefix + rest, prefix),
        starts_with(s, prefix) ==> s == prefix + s.skip(prefix.len() as int),
{
    assert((prefix + rest).take(prefix.len() as int) =~= prefix);
    if starts_with(s, prefix) {
        assert(s =~= s.take(prefix.len() as int) + s.skip(prefix.len() as int));
    }
}

} // verus!
