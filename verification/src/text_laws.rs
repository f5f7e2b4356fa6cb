//! What holds of the texts that are taken apart and put together.
use crate::text;
use vstd::prelude::*;

verus! {

/// White space is what Unicode counts as such: the characters from the tab to the carriage return,
/// the space, and those of that kind beyond ASCII.
pub proof fn white_space_is_that_of_unicode(c: char)
    ensures
        text::is_space(c) <==> {
            let n = c as int;
            ||| n == 9 || n == 10 || n == 11 || n == 12 || n == 13 || n == 32
            ||| n == 133 || n == 160 || n == 5760
            ||| 8192 <= n <= 8202
            ||| n == 8232 || n == 8233 || n == 8239 || n == 8287 || n == 12288
        },
{
}

/// A text occurs in another exactly where that one is something, the text, and something more.
pub proof fn occurring_text_stands_between_two_others(s: Seq<char>, part: Seq<char>)
    ensures
        text::occurs_in(s, part) <==> exists|a: Seq<char>, b: Seq<char>| s == #[trigger] (a + part + b),
{
    if text::occurs_in(s, part) {
        let i = choose|i: int| #[trigger] text::occurs_at(s, part, i);
        let a = s.take(i);
        let b = s.skip(i + part.len());
        assert(s =~= a + part + b);
    }
    if exists|a: Seq<char>, b: Seq<char>| s == #[trigger] (a + part + b) {
        let (a, b) = choose|a: Seq<char>, b: Seq<char>| s == #[trigger] (a + part + b);
        let at = a.len() as int;
        assert(s.subrange(at, at + part.len()) =~= part);
        assert(text::occurs_at(s, part, at));
    }
}

/// A text begins with another exactly where it is that one and something more.
pub proof fn beginning_is_followed_by_the_rest(s: Seq<char>, part: Seq<char>)
    ensures
        text::begins_with(s, part) <==> exists|b: Seq<char>| s == #[trigger] (part + b),
{
    if text::begins_with(s, part) {
        assert(s =~= part + s.skip(part.len() as int));
    }
    if exists|b: Seq<char>| s == #[trigger] (part + b) {
        let b = choose|b: Seq<char>| s == #[trigger] (part + b);
        assert((part + b).subrange(0, 0 + part.len() as int) =~= part);
    }
}

/// A text ends in another exactly where it is something and that one.
pub proof fn end_is_preceded_by_the_rest(s: Seq<char>, part: Seq<char>)
    ensures
        text::ends_in(s, part) <==> exists|a: Seq<char>| s == #[trigger] (a + part),
{
    if text::ends_in(s, part) {
        assert(s =~= s.take(s.len() - part.len()) + part);
    }
    if exists|a: Seq<char>| s == #[trigger] (a + part) {
        let a = choose|a: Seq<char>| s == #[trigger] (a + part);
        let at = a.len() as int;
        assert((a + part).subrange(at, at + part.len() as int) =~= part);
    }
}

/// The texts of a list of strings are those of its strings, in their order.
pub proof fn texts_are_those_of_the_strings(v: Seq<String>, i: int)
    ensures
        text::texts(v).len() == v.len(),
        0 <= i < v.len() ==> text::texts(v)[i] == v[i]@,
{
}

/// A list lists a name exactly where the name is among its texts.
pub proof fn listed_name_is_among_the_texts(v: Seq<String>, name: Seq<char>)
    ensures
        text::lists(v, name) <==> text::texts(v).contains(name),
{
    if text::lists(v, name) {
        let i = choose|i: int| 0 <= i < v.len() && #[trigger] v[i]@ == name;
        assert(text::texts(v)[i] == name);
    }
    if text::texts(v).contains(name) {
        let i = choose|i: int| 0 <= i < text::texts(v).len() && text::texts(v)[i] == name;
        assert(v[i]@ == name);
    }
}

/// Joining nothing gives nothing, joining one text gives that text, and joining two lists that are
/// not empty, one after the other, gives what each of them gives, with the separator between.
pub proof fn joined_lists_are_joined_by_the_separator(
    a: Seq<Seq<char>>,
    b: Seq<Seq<char>>,
    s: Seq<char>,
    sep: Seq<char>,
)
    ensures
        text::join(Seq::<Seq<char>>::empty(), sep) == Seq::<char>::empty(),
        text::join(seq![s], sep) == s,
        a.len() > 0 && b.len() > 0 ==> text::join(a + b, sep) == text::join(a, sep) + sep
            + text::join(b, sep),
    decreases b.len(),
{
    if a.len() > 0 && b.len() > 0 {
        let ab = a + b;
        assert(ab.drop_last() =~= a + b.drop_last());
        assert(ab.last() == b.last());
        if b.len() == 1 {
            assert(ab.drop_last() =~= a);
        } else {
            joined_lists_are_joined_by_the_separator(a, b.drop_last(), s, sep);
            assert(text::join(a, sep) + sep + (text::join(b.drop_last(), sep) + sep + b.last()) =~= (
            text::join(a, sep) + sep + text::join(b.drop_last(), sep)) + sep + b.last());
        }
    }
}

/// The number that a text of digits stands for.
pub open spec fn value(s: Seq<char>) -> int
    decreases s.len(),
{
    if s.len() == 0 {
        0
    } else {
        10 * value(s.drop_last()) + (s.last() as int - 48)
    }
}

/// The decimal notation of a number consists of digits, stands for the number, and has no leading
/// zero but in the notation of zero itself.
pub proof fn decimal_notation_stands_for_the_number(n: nat)
    ensures
        text::decimal(n).len() > 0,
        forall|i: int|
            0 <= i < text::decimal(n).len() ==> 48 <= #[trigger] text::decimal(n)[i] as int <= 57,
        value(text::decimal(n)) == n,
        text::decimal(n)[0] == '0' ==> n == 0,
    decreases n,
{
    if n < 10 {
        assert(text::decimal(n).drop_last() =~= Seq::<char>::empty());
        assert(value(Seq::<char>::empty()) == 0);
    } else {
        decimal_notation_stands_for_the_number(n / 10);
        assert(text::decimal(n).drop_last() =~= text::decimal(n / 10));
    }
}

/// The notation of a negative integer is a minus sign and the notation of its opposite.
pub proof fn negative_integer_has_a_minus_sign(n: int)
    ensures
        n >= 0 ==> text::decimal_int(n) == text::decimal(n as nat),
        n < 0 ==> text::decimal_int(n) == seq!['-'] + text::decimal((0 - n) as nat),
{
}

/// White space alone holds no words.
pub proof fn white_space_holds_no_words(s: Seq<char>)
    requires
        forall|i: int| 0 <= i < s.len() ==> text::is_space(#[trigger] s[i]),
    ensures
        text::words(s).len() == 0,
    decreases s.len(),
{
    if s.len() > 0 {
        assert(text::is_space(s[0]));
        assert forall|i: int| 0 <= i < s.drop_first().len() implies text::is_space(
            #[trigger] s.drop_first()[i],
        ) by {
            assert(text::is_space(s[i + 1]));
        }
        white_space_holds_no_words(s.drop_first());
    }
}

/// A text without white space that is not empty is its only word.
pub proof fn text_without_white_space_is_a_word(s: Seq<char>)
    requires
        s.len() > 0,
        forall|i: int| 0 <= i < s.len() ==> !text::is_space(#[trigger] s[i]),
    ensures
        text::words(s) == seq![s],
{
    lemma_word_len_of(s, Seq::empty());
    assert(s + Seq::<char>::empty() =~= s);
    let n = text::word_len(s) as int;
    assert(s.take(n) =~= s);
    assert(s.skip(n) =~= Seq::<char>::empty());
    assert(text::words(s.skip(n)) =~= Seq::<Seq<char>>::empty());
    assert(text::words(s) =~= seq![s]);
}

proof fn lemma_word_len_of(word: Seq<char>, rest: Seq<char>)
    requires
        forall|i: int| 0 <= i < word.len() ==> !text::is_space(#[trigger] word[i]),
        rest.len() > 0 ==> text::is_space(rest[0]),
    ensures
        text::word_len(word + rest) == word.len(),
    decreases word.len(),
{
    let s = word + rest;
    if word.len() > 0 {
        assert(s[0] == word[0]);
        assert(s.drop_first() =~= word.drop_first() + rest);
        lemma_word_len_of(word.drop_first(), rest);
    } else {
        assert(s =~= rest);
    }
}

/// White space parts words: the words of two texts with white space between are those of the first
/// and those of the second.
pub proof fn white_space_parts_words(a: Seq<char>, space: char, b: Seq<char>)
    requires
        text::is_space(space),
    ensures
        text::words(a + seq![space] + b) == text::words(a) + text::words(b),
    decreases a.len(),
{
    let s = a + seq![space] + b;
    if a.len() == 0 {
        assert(s[0] == space);
        assert(s.drop_first() =~= b);
        assert(text::words(a) + text::words(b) =~= text::words(b));
    } else if text::is_space(a[0]) {
        assert(s[0] == a[0]);
        assert(s.drop_first() =~= a.drop_first() + seq![space] + b);
        white_space_parts_words(a.drop_first(), space, b);
    } else {
        text::lemma_word_len(a);
        let n = text::word_len(a) as int;
        let word = a.take(n);
        lemma_word(a);
        let rest = a.skip(n) + seq![space] + b;
        assert(s =~= word + rest);
        assert(rest[0] == if n < a.len() {
            a[n]
        } else {
            space
        });
        lemma_word_len_of(word, rest);
        assert(s[0] == a[0]);
        assert(s.take(n) =~= word);
        assert(s.skip(n) =~= rest);
        white_space_parts_words(a.skip(n), space, b);
        assert(seq![word] + (text::words(a.skip(n)) + text::words(b)) =~= (seq![word] + text::words(
            a.skip(n),
        )) + text::words(b));
    }
}

proof fn lemma_word(s: Seq<char>)
    ensures
        text::word_len(s) <= s.len(),
        forall|i: int| 0 <= i < text::word_len(s) ==> !text::is_space(#[trigger] s[i]),
        text::word_len(s) < s.len() ==> text::is_space(s[text::word_len(s) as int]),
        s.len() > 0 && !text::is_space(s[0]) ==> text::word_len(s) > 0,
    decreases s.len(),
{
    if s.len() != 0 && !text::is_space(s[0]) {
        let rest = s.drop_first();
        lemma_word(rest);
        assert forall|i: int| 0 <= i < text::word_len(s) implies !text::is_space(
            #[trigger] s[i],
        ) by {
            if i > 0 {
                assert(rest[i - 1] == s[i]);
            }
        }
    }
}

/// A text without line feeds is its only line, and an empty one has no lines.
pub proof fn text_without_line_feeds_is_one_line(s: Seq<char>)
    requires
        forall|i: int| 0 <= i < s.len() ==> #[trigger] s[i] != '\n',
    ensures
        s.len() == 0 ==> text::lines(s).len() == 0,
        s.len() > 0 ==> text::lines(s) == seq![s],
{
    text::lemma_run_len(s, '\n');
}

/// A line feed ends a line, and a carriage return directly before it belongs to the end of the
/// line. What follows is further lines.
pub proof fn line_feed_ends_a_line(line: Seq<char>, rest: Seq<char>)
    requires
        forall|i: int| 0 <= i < line.len() ==> #[trigger] line[i] != '\n',
    ensures
        text::lines(line + "\r\n"@ + rest) == seq![line] + text::lines(rest),
        line.len() == 0 || line.last() != '\r' ==> text::lines(line + "\n"@ + rest) == seq![line]
            + text::lines(rest),
{
    reveal_strlit("\r\n");
    reveal_strlit("\n");
    let s = line + "\n"@ + rest;
    let n = line.len() as int;
    lemma_run_len_of(line, seq!['\n'] + rest);
    assert(s =~= line + (seq!['\n'] + rest));
    assert(s.take(n) =~= line);
    assert(s.skip(n + 1) =~= rest);
    let t = line + "\r\n"@ + rest;
    let longer = line.push('\r');
    assert forall|i: int| 0 <= i < longer.len() implies #[trigger] longer[i] != '\n' by {
        if i < n {
            assert(line[i] != '\n');
        }
    }
    lemma_run_len_of(longer, seq!['\n'] + rest);
    assert(t =~= longer + (seq!['\n'] + rest));
    assert(t.take(n + 1) =~= longer);
    assert(longer.drop_last() =~= line);
    assert(t.skip(n + 2) =~= rest);
}

proof fn lemma_run_len_of(line: Seq<char>, rest: Seq<char>)
    requires
        forall|i: int| 0 <= i < line.len() ==> #[trigger] line[i] != '\n',
        rest.len() > 0,
        rest[0] == '\n',
    ensures
        text::run_len(line + rest, '\n') == line.len(),
{
    let s = line + rest;
    text::lemma_run_len(s, '\n');
    let n = text::run_len(s, '\n') as int;
    let at = line.len() as int;
    assert(s[at] == '\n');
    if n < at {
        assert(s[n] == line[n]);
    }
}

/// Trimming takes away white space at the end, all of it, and nothing else.
pub proof fn trimming_takes_white_space_at_the_end(s: Seq<char>)
    ensures
        text::trimmed_end(s).len() <= s.len(),
        text::trimmed_end(s) == s.take(text::trimmed_end(s).len() as int),
        forall|i: int|
            text::trimmed_end(s).len() <= i < s.len() ==> text::is_space(#[trigger] s[i]),
        text::trimmed_end(s).len() > 0 ==> !text::is_space(text::trimmed_end(s).last()),
    decreases s.len(),
{
    if s.len() > 0 && text::is_space(s.last()) {
        let rest = s.drop_last();
        trimming_takes_white_space_at_the_end(rest);
        let n = text::trimmed_end(rest).len() as int;
        assert(rest.take(n) =~= s.take(n));
        assert forall|i: int| n <= i < s.len() implies text::is_space(#[trigger] s[i]) by {
            if i < s.len() - 1 {
                assert(rest[i] == s[i]);
            }
        }
    } else {
        assert(s.take(s.len() as int) =~= s);
    }
}

/// A text is blank exactly where trimming leaves nothing of it.
pub proof fn blank_text_is_trimmed_to_nothing(s: Seq<char>)
    ensures
        text::is_blank(s) <==> text::trimmed_end(s).len() == 0,
{
    trimming_takes_white_space_at_the_end(s);
    let t = text::trimmed_end(s);
    if t.len() > 0 {
        assert(t.last() == s[t.len() - 1]);
    }
}

} // verus!
