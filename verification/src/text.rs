//! Text as a sequence of characters.
use vstd::prelude::*;

verus! {

/// `String::push` appends the given character at the end of the string.
pub assume_specification[ String::push ](s: &mut String, c: char)
    ensures
        final(s)@ == old(s)@.push(c),
;

/// The characters of `s`, in order.
pub fn chars_of(s: &str) -> (r: Vec<char>)
    ensures
        r@ == s@,
{
    let mut r: Vec<char> = Vec::new();
    for c in it: s.chars()
        invariant
            r@ == it.seq().take(it.index() as int),
            it.seq() == s@,
    {
        r.push(c);
        assert(it.seq().take(it.index() as int + 1) =~= it.seq().take(it.index() as int).push(c));
    }
    assert(s@.take(s@.len() as int) =~= s@);
    r
}

/// The text made of the characters of `v` from `from` up to `to`.
pub fn string_of(v: &Vec<char>, from: usize, to: usize) -> (r: String)
    requires
        from <= to <= v@.len(),
    ensures
        r@ == v@.subrange(from as int, to as int),
{
    let mut r = String::new();
    let mut i: usize = from;
    while i < to
        invariant
            from <= i <= to <= v@.len(),
            r@ == v@.subrange(from as int, i as int),
        decreases to - i,
    {
        r.push(v[i]);
        i = i + 1;
    }
    r
}

/// Whether a character has the Unicode property `White_Space`.
pub open spec fn is_space(c: char) -> bool {
    ||| '\u{9}' <= c <= '\u{d}'
    ||| c == ' '
    ||| c == '\u{85}'
    ||| c == '\u{a0}'
    ||| c == '\u{1680}'
    ||| '\u{2000}' <= c <= '\u{200a}'
    ||| c == '\u{2028}'
    ||| c == '\u{2029}'
    ||| c == '\u{202f}'
    ||| c == '\u{205f}'
    ||| c == '\u{3000}'
}

/// Whether a character is white space.
pub fn space(c: char) -> (b: bool)
    ensures
        b == is_space(c),
{
    ('\u{9}' <= c && c <= '\u{d}') || c == ' ' || c == '\u{85}' || c == '\u{a0}' || c == '\u{1680}' || (
    '\u{2000}' <= c && c <= '\u{200a}') || c == '\u{2028}' || c == '\u{2029}' || c == '\u{202f}' || c
        == '\u{205f}' || c == '\u{3000}'
}

/// Whether `part` stands in `s` from position `i` on.
pub open spec fn occurs_at(s: Seq<char>, part: Seq<char>, i: int) -> bool {
    0 <= i && i + part.len() <= s.len() && s.subrange(i, i + part.len()) == part
}

/// Whether `part` stands somewhere in `s`.
pub open spec fn occurs_in(s: Seq<char>, part: Seq<char>) -> bool {
    exists|i: int| #[trigger] occurs_at(s, part, i)
}

/// Whether `s` begins with `part`.
pub open spec fn begins_with(s: Seq<char>, part: Seq<char>) -> bool {
    occurs_at(s, part, 0)
}

/// Whether `s` ends with `part`.
pub open spec fn ends_in(s: Seq<char>, part: Seq<char>) -> bool {
    occurs_at(s, part, s.len() - part.len())
}

/// Whether the characters of `part` stand in `s` from `i` on.
fn chars_at(s: &Vec<char>, part: &Vec<char>, i: usize) -> (b: bool)
    ensures
        b == occurs_at(s@, part@, i as int),
{
    if part.len() > s.len() || i > s.len() - part.len() {
        return false;
    }
    let n: usize = s.len();
    let mut k: usize = 0;
    while k < part.len()
        invariant
            k <= part@.len(),
            i + part@.len() <= n,
            n == s@.len(),
            s@.subrange(i as int, i + k) == part@.take(k as int),
        decreases part@.len() - k,
    {
        if s[i + k] != part[k] {
            proof {
                if occurs_at(s@, part@, i as int) {
                    assert(s@.subrange(i as int, i + part@.len())[k as int] == part@[k as int]);
                }
            }
            return false;
        }
        proof {
            assert(s@.subrange(i as int, i + k + 1) =~= s@.subrange(i as int, i + k).push(
                s@[i + k],
            ));
            assert(part@.take(k + 1) =~= part@.take(k as int).push(part@[k as int]));
        }
        k = k + 1;
    }
    assert(part@.take(part@.len() as int) =~= part@);
    true
}

/// Whether two texts hold the same characters.
pub fn same(a: &str, b: &str) -> (r: bool)
    ensures
        r == (a@ == b@),
{
    let x = chars_of(a);
    let y = chars_of(b);
    if x.len() != y.len() {
        return false;
    }
    let r = chars_at(&x, &y, 0);
    assert(x@.subrange(0, x@.len() as int) =~= x@);
    r
}

/// Whether `part` stands somewhere in `s`.
pub fn contains(s: &str, part: &str) -> (r: bool)
    ensures
        r == occurs_in(s@, part@),
{
    let x = chars_of(s);
    let y = chars_of(part);
    let mut i: usize = 0;
    while i <= x.len()
        invariant
            x@ == s@,
            y@ == part@,
            i <= x@.len() + 1,
            forall|j: int| 0 <= j < i ==> !#[trigger] occurs_at(s@, part@, j),
        decreases x@.len() + 1 - i,
    {
        if chars_at(&x, &y, i) {
            return true;
        }
        if i == x.len() {
            return false;
        }
        i = i + 1;
    }
    false
}

/// Whether `s` begins with `part`.
pub fn starts_with(s: &str, part: &str) -> (r: bool)
    ensures
        r == begins_with(s@, part@),
{
    chars_at(&chars_of(s), &chars_of(part), 0)
}

/// What follows `part` in a text that begins with it.
pub fn strip_prefix(s: &str, part: &str) -> (r: Option<String>)
    ensures
        r is Some <==> begins_with(s@, part@),
        r is Some ==> r->0@ == s@.skip(part@.len() as int),
{
    let x = chars_of(s);
    let y = chars_of(part);
    if chars_at(&x, &y, 0) {
        let r = string_of(&x, y.len(), x.len());
        assert(x@.subrange(y@.len() as int, x@.len() as int) =~= x@.skip(y@.len() as int));
        Some(r)
    } else {
        None
    }
}

/// What precedes `part` in a text that ends with it.
pub fn strip_suffix(s: &str, part: &str) -> (r: Option<String>)
    ensures
        r is Some <==> ends_in(s@, part@),
        r is Some ==> r->0@ == s@.take(s@.len() - part@.len()),
{
    let x = chars_of(s);
    let y = chars_of(part);
    if y.len() > x.len() {
        return None;
    }
    let at: usize = x.len() - y.len();
    if chars_at(&x, &y, at) {
        let r = string_of(&x, 0, at);
        assert(x@.subrange(0, at as int) =~= x@.take(at as int));
        Some(r)
    } else {
        None
    }
}

/// The parts one after the other, with `sep` between each two.
pub open spec fn join(parts: Seq<Seq<char>>, sep: Seq<char>) -> Seq<char>
    decreases parts.len(),
{
    if parts.len() == 0 {
        Seq::empty()
    } else if parts.len() == 1 {
        parts[0]
    } else {
        join(parts.drop_last(), sep) + sep + parts.last()
    }
}

/// The texts that a list of strings holds.
pub open spec fn texts(v: Seq<String>) -> Seq<Seq<char>> {
    Seq::new(v.len(), |i: int| v[i]@)
}

/// The strings one after the other, with `sep` between each two.
pub fn joined(parts: &Vec<String>, sep: &str) -> (r: String)
    ensures
        r@ == join(texts(parts@), sep@),
{
    let mut r = String::new();
    let mut i: usize = 0;
    while i < parts.len()
        invariant
            i <= parts@.len(),
            r@ == join(texts(parts@).take(i as int), sep@),
        decreases parts@.len() - i,
    {
        if i > 0 {
            r.append(sep);
        }
        r.append(parts[i].as_str());
        proof {
            let next = texts(parts@).take(i + 1);
            assert(next.drop_last() =~= texts(parts@).take(i as int));
        }
        i = i + 1;
    }
    assert(texts(parts@).take(parts@.len() as int) =~= texts(parts@));
    r
}

/// The decimal digit for a number below ten.
pub open spec fn digit(d: nat) -> char {
    seq!['0', '1', '2', '3', '4', '5', '6', '7', '8', '9'][d as int]
}

/// A number in decimal notation, without leading zeros.
pub open spec fn decimal(n: nat) -> Seq<char>
    decreases n,
{
    if n < 10 {
        seq![digit(n)]
    } else {
        decimal(n / 10).push(digit(n % 10))
    }
}

/// An integer in decimal notation, with a minus sign where it is negative.
pub open spec fn decimal_int(n: int) -> Seq<char> {
    if n < 0 {
        seq!['-'] + decimal((-n) as nat)
    } else {
        decimal(n as nat)
    }
}

/// A number in decimal notation.
pub fn decimal_text(n: u64) -> (r: String)
    ensures
        r@ == decimal(n as nat),
    decreases n,
{
    let mut r = if n < 10 {
        String::new()
    } else {
        decimal_text(n / 10)
    };
    let d: u64 = n % 10;
    let c = if d == 0 {
        '0'
    } else if d == 1 {
        '1'
    } else if d == 2 {
        '2'
    } else if d == 3 {
        '3'
    } else if d == 4 {
        '4'
    } else if d == 5 {
        '5'
    } else if d == 6 {
        '6'
    } else if d == 7 {
        '7'
    } else if d == 8 {
        '8'
    } else {
        '9'
    };
    r.push(c);
    proof {
        assert(c == digit(d as nat));
        assert(n < 10 ==> r@ =~= seq![digit(n as nat)]);
    }
    r
}

/// An exit code in decimal notation.
pub fn decimal_code(n: i32) -> (r: String)
    ensures
        r@ == decimal_int(n as int),
{
    if n < 0 {
        let m: i64 = 0 - (n as i64);
        let mut r = String::new();
        r.push('-');
        r.append(decimal_text(m as u64).as_str());
        assert(r@ =~= seq!['-'] + decimal((-(n as int)) as nat));
        r
    } else {
        decimal_text(n as u64)
    }
}

/// How many characters `s` begins with that are no white space.
pub open spec fn word_len(s: Seq<char>) -> nat
    decreases s.len(),
{
    if s.len() == 0 || is_space(s[0]) {
        0
    } else {
        1 + word_len(s.drop_first())
    }
}

/// A word is no longer than the text that it stands in.
pub proof fn lemma_word_len(s: Seq<char>)
    ensures
        word_len(s) <= s.len(),
    decreases s.len(),
{
    if s.len() != 0 && !is_space(s[0]) {
        lemma_word_len(s.drop_first());
    }
}

/// The longest runs of characters in `s` that are no white space, in order.
pub open spec fn words(s: Seq<char>) -> Seq<Seq<char>>
    decreases s.len(),
{
    if s.len() == 0 {
        Seq::empty()
    } else if is_space(s[0]) {
        words(s.drop_first())
    } else {
        proof {
            lemma_word_len(s);
        }
        seq![s.take(word_len(s) as int)] + words(s.skip(word_len(s) as int))
    }
}

/// The runs of characters in `s` that are no white space, in order.
pub fn split_words(s: &str) -> (r: Vec<String>)
    ensures
        texts(r@) == words(s@),
{
    let x = chars_of(s);
    let mut r: Vec<String> = Vec::new();
    let mut i: usize = 0;
    assert(x@.skip(0) =~= x@);
    assert(texts(r@) + words(x@.skip(0)) =~= words(x@));
    while i < x.len()
        invariant
            i <= x@.len(),
            texts(r@) + words(x@.skip(i as int)) == words(x@),
        decreases x@.len() - i,
    {
        let ghost rest = x@.skip(i as int);
        if space(x[i]) {
            assert(rest.drop_first() =~= x@.skip(i + 1));
            i = i + 1;
        } else {
            let from: usize = i;
            proof {
                assert(rest.skip(0) =~= rest);
            }
            while i < x.len() && !space(x[i])
                invariant
                    from <= i <= x@.len(),
                    rest == x@.skip(from as int),
                    word_len(rest) == (i - from) + word_len(x@.skip(i as int)),
                decreases x@.len() - i,
            {
                assert(x@.skip(i as int).drop_first() =~= x@.skip(i + 1));
                i = i + 1;
            }
            let ghost n = word_len(rest) as int;
            assert(n == i - from);
            let w = string_of(&x, from, i);
            let ghost before = texts(r@);
            r.push(w);
            proof {
                assert(rest.take(n) =~= x@.subrange(from as int, i as int));
                assert(rest.skip(n) =~= x@.skip(i as int));
                assert(texts(r@) =~= before.push(w@));
                assert(words(rest) == seq![rest.take(n)] + words(rest.skip(n)));
                assert(texts(r@) + words(x@.skip(i as int)) =~= before + words(rest));
            }
        }
    }
    proof {
        assert(x@.skip(i as int).len() == 0);
        assert(texts(r@) + words(x@.skip(i as int)) =~= texts(r@));
    }
    r
}

/// How many characters `s` begins with that are not `c`.
pub open spec fn run_len(s: Seq<char>, c: char) -> nat
    decreases s.len(),
{
    if s.len() == 0 || s[0] == c {
        0
    } else {
        1 + run_len(s.drop_first(), c)
    }
}

/// `run_len` is the position of the first `c`, or the length of `s` where there is none.
pub proof fn lemma_run_len(s: Seq<char>, c: char)
    ensures
        run_len(s, c) <= s.len(),
        run_len(s, c) < s.len() ==> s[run_len(s, c) as int] == c,
        forall|i: int| 0 <= i < run_len(s, c) ==> #[trigger] s[i] != c,
    decreases s.len(),
{
    if s.len() != 0 && s[0] != c {
        lemma_run_len(s.drop_first(), c);
        let n = run_len(s.drop_first(), c);
        assert forall|i: int| 0 <= i < n + 1 implies #[trigger] s[i] != c by {
            if i > 0 {
                assert(s.drop_first()[i - 1] == s[i]);
            }
        }
    }
}

/// The position of the first `c` at or after `from`, or the length of `v` where there is none.
fn find_char(v: &Vec<char>, from: usize, c: char) -> (r: usize)
    requires
        from <= v@.len(),
    ensures
        r == from + run_len(v@.skip(from as int), c),
        from <= r <= v@.len(),
        r < v@.len() ==> v@[r as int] == c,
{
    let mut i: usize = from;
    while i < v.len() && v[i] != c
        invariant
            from <= i <= v@.len(),
            run_len(v@.skip(from as int), c) == (i - from) + run_len(v@.skip(i as int), c),
        decreases v@.len() - i,
    {
        assert(v@.skip(i as int).drop_first() =~= v@.skip(i + 1));
        i = i + 1;
    }
    i
}

/// What stands before and after the first `c`.
pub fn split_once(s: &str, c: char) -> (r: Option<(String, String)>)
    ensures
        r is Some <==> run_len(s@, c) < s@.len(),
        r matches Some((before, after)) ==> before@ == s@.take(run_len(s@, c) as int) && after@
            == s@.skip(run_len(s@, c) as int + 1),
{
    let x = chars_of(s);
    assert(x@.skip(0) =~= x@);
    let at = find_char(&x, 0, c);
    if at == x.len() {
        return None;
    }
    let before = string_of(&x, 0, at);
    let after = string_of(&x, at + 1, x.len());
    proof {
        assert(x@.subrange(0, at as int) =~= x@.take(at as int));
        assert(x@.subrange(at + 1, x@.len() as int) =~= x@.skip(at + 1));
    }
    Some((before, after))
}

/// A line without the carriage return that its end may have begun with.
pub open spec fn without_return(line: Seq<char>) -> Seq<char> {
    if line.len() > 0 && line.last() == '\r' {
        line.drop_last()
    } else {
        line
    }
}

/// The lines of `s`, each without its line ending: a line feed, or a carriage return and a line
/// feed. The last line needs none.
pub open spec fn lines(s: Seq<char>) -> Seq<Seq<char>>
    decreases s.len(),
{
    let n = run_len(s, '\n') as int;
    if s.len() == 0 {
        Seq::empty()
    } else if n >= s.len() {
        seq![s]
    } else {
        seq![without_return(s.take(n))] + lines(s.skip(n + 1))
    }
}

/// The lines of `s`, without their line endings.
pub fn split_lines(s: &str) -> (r: Vec<String>)
    ensures
        texts(r@) == lines(s@),
{
    let x = chars_of(s);
    let mut r: Vec<String> = Vec::new();
    let mut i: usize = 0;
    assert(x@.skip(0) =~= x@);
    assert(texts(r@) + lines(x@.skip(0)) =~= lines(x@));
    while i < x.len()
        invariant
            i <= x@.len(),
            texts(r@) + lines(x@.skip(i as int)) == lines(x@),
        decreases x@.len() - i,
    {
        let ghost rest = x@.skip(i as int);
        let ghost before = texts(r@);
        let end = find_char(&x, i, '\n');
        let ghost n = end - i;
        if end == x.len() {
            let line = string_of(&x, i, end);
            r.push(line);
            proof {
                assert(line@ =~= rest);
                assert(texts(r@) =~= before.push(line@));
                assert(lines(rest) =~= seq![rest]);
                assert(x@.skip(end as int).len() == 0);
                assert(texts(r@) + lines(x@.skip(end as int)) =~= before + lines(rest));
            }
            i = end;
        } else {
            let to: usize = if end > i && x[end - 1] == '\r' {
                end - 1
            } else {
                end
            };
            let line = string_of(&x, i, to);
            r.push(line);
            proof {
                assert(rest.take(n) =~= x@.subrange(i as int, end as int));
                assert(line@ =~= without_return(rest.take(n)));
                assert(texts(r@) =~= before.push(line@));
                assert(rest.skip(n + 1) =~= x@.skip(end + 1));
                assert(texts(r@) + lines(x@.skip(end + 1)) =~= before + lines(rest));
            }
            i = end + 1;
        }
    }
    proof {
        assert(x@.skip(i as int).len() == 0);
        assert(texts(r@) + lines(x@.skip(i as int)) =~= texts(r@));
    }
    r
}

/// `s` without the white space at its end.
pub open spec fn trimmed_end(s: Seq<char>) -> Seq<char>
    decreases s.len(),
{
    if s.len() > 0 && is_space(s.last()) {
        trimmed_end(s.drop_last())
    } else {
        s
    }
}

/// `s` without the white space at its end.
pub fn trim_end(s: &str) -> (r: String)
    ensures
        r@ == trimmed_end(s@),
{
    let x = chars_of(s);
    let mut n: usize = x.len();
    assert(x@.take(n as int) =~= x@);
    while n > 0 && space(x[n - 1])
        invariant
            n <= x@.len(),
            trimmed_end(x@.take(n as int)) == trimmed_end(x@),
        decreases n,
    {
        assert(x@.take(n as int).drop_last() =~= x@.take(n - 1));
        n = n - 1;
    }
    assert(x@.subrange(0, n as int) =~= x@.take(n as int));
    string_of(&x, 0, n)
}

/// Whether a text holds nothing but white space.
pub open spec fn is_blank(s: Seq<char>) -> bool {
    forall|i: int| 0 <= i < s.len() ==> is_space(#[trigger] s[i])
}

/// Whether a text holds nothing but white space.
pub fn blank(s: &str) -> (b: bool)
    ensures
        b == is_blank(s@),
{
    let x = chars_of(s);
    let mut i: usize = 0;
    while i < x.len()
        invariant
            i <= x@.len(),
            x@ == s@,
            forall|j: int| 0 <= j < i ==> is_space(#[trigger] x@[j]),
        decreases x@.len() - i,
    {
        if !space(x[i]) {
            return false;
        }
        i = i + 1;
    }
    true
}

/// Whether one of the strings is `name`.
pub open spec fn lists(v: Seq<String>, name: Seq<char>) -> bool {
    exists|i: int| 0 <= i < v.len() && #[trigger] v[i]@ == name
}

/// Whether one of the strings is `name`.
pub fn listed(v: &Vec<String>, name: &str) -> (b: bool)
    ensures
        b == lists(v@, name@),
{
    let mut i: usize = 0;
    while i < v.len()
        invariant
            i <= v@.len(),
            forall|j: int| 0 <= j < i ==> #[trigger] v@[j]@ != name@,
        decreases v@.len() - i,
    {
        if same(v[i].as_str(), name) {
            return true;
        }
        i = i + 1;
    }
    false
}

/// A list of the same texts.
pub fn copied(v: &Vec<String>) -> (r: Vec<String>)
    ensures
        r@ == v@,
{
    let mut r: Vec<String> = Vec::new();
    let mut i: usize = 0;
    while i < v.len()
        invariant
            i <= v@.len(),
            r@ == v@.take(i as int),
        decreases v@.len() - i,
    {
        r.push(v[i].clone());
        i = i + 1;
    }
    r
}

} // verus!
